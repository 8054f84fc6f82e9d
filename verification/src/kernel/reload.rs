//! Reading the manifests on disk again.
//!
//! A [`Reload`] says what is to be done next: remove a definition, or load a
//! file. The caller does it, tells whether a load worked, and asks again.

use vstd::prelude::*;
use vstd::string::*;
use crate::json;
use crate::json::{Json, JsonV};
use crate::kernel::operations;
use crate::kernel::operations::{Found, FoundV};
use crate::kernel::{Kernel, KernelV};
use crate::manifest::{ManifestV, StoredManifest};
use crate::text;
use crate::text::Text;

verus! {

/// A reload under way.
#[derive(Debug)]
pub struct Reload {
    /// Definitions to remove.
    stale: Vec<String>,
    /// Files to load.
    paths: Vec<String>,
    removed: usize,
    tried: usize,
    reloaded: usize,
    failed: Vec<String>,
}

#[verifier::ext_equal]
pub struct ReloadV {
    pub stale: Seq<Text>,
    pub paths: Seq<Text>,
    /// How many of `stale` were handed out.
    pub removed: nat,
    /// How many of `paths` were handed out.
    pub tried: nat,
    /// How many of those were loaded.
    pub reloaded: nat,
    /// What is wrong with the files that are not loaded.
    pub failed: Seq<Text>,
}

impl View for Reload {
    type V = ReloadV;

    closed spec fn view(&self) -> ReloadV {
        ReloadV {
            stale: self.stale.deep_view(),
            paths: self.paths.deep_view(),
            removed: self.removed as nat,
            tried: self.tried as nat,
            reloaded: self.reloaded as nat,
            failed: self.failed.deep_view(),
        }
    }
}

/// What a reload asks for.
#[derive(Debug)]
pub enum ReloadStep {
    /// Remove this definition.
    Remove(String),
    /// Load this file, and tell whether that worked.
    Load(String),
    /// Nothing more; so many files were loaded.
    Over(usize),
}

pub enum ReloadStepV {
    Remove(Text),
    Load(Text),
    Over(nat),
}

impl View for ReloadStep {
    type V = ReloadStepV;

    open spec fn view(&self) -> ReloadStepV {
        match self {
            ReloadStep::Remove(id) => ReloadStepV::Remove(id@),
            ReloadStep::Load(path) => ReloadStepV::Load(path@),
            ReloadStep::Over(n) => ReloadStepV::Over(*n as nat),
        }
    }
}

/// The file that a definition comes from.
pub open spec fn source_of(d: ManifestV) -> Text {
    match d.source {
        Some(path) => path,
        None => Seq::empty(),
    }
}

pub open spec fn paths_of(fs: Seq<FoundV>) -> Seq<Text> {
    fs.map_values(|f: FoundV| f.path)
}

impl ReloadV {
    /// The counts are of what was handed out.
    pub open spec fn wf(self) -> bool {
        &&& self.removed <= self.stale.len()
        &&& self.tried <= self.paths.len()
        &&& self.reloaded <= self.tried
    }

    /// What comes next: the removals first, then the files in order.
    pub open spec fn next(self) -> (ReloadV, ReloadStepV) {
        if self.removed < self.stale.len() {
            (
                ReloadV { removed: self.removed + 1, ..self },
                ReloadStepV::Remove(self.stale[self.removed as int]),
            )
        } else if self.tried < self.paths.len() {
            (
                ReloadV { tried: self.tried + 1, ..self },
                ReloadStepV::Load(self.paths[self.tried as int]),
            )
        } else {
            (self, ReloadStepV::Over(self.reloaded))
        }
    }

    /// The reload after the last file was loaded, or was not.
    pub open spec fn told(self, loaded: bool) -> ReloadV {
        if self.tried == 0 {
            self
        } else if loaded {
            if self.reloaded < self.tried {
                ReloadV { reloaded: self.reloaded + 1, ..self }
            } else {
                self
            }
        } else {
            ReloadV {
                failed: self.failed.push(
                    self.paths[self.tried - 1] + ": activation failed"@,
                ),
                ..self
            }
        }
    }

    /// How many steps are left.
    pub open spec fn left(self) -> int {
        self.stale.len() - self.removed + self.paths.len() - self.tried
    }
}

impl KernelV {
    /// What a reload has to do, given the files that were found and the
    /// sources that lie in the watched directory.
    pub open spec fn reload(self, fs: Seq<FoundV>, under: Seq<Text>) -> ReloadV {
        let (ds, failed) = operations::candidates(fs);
        ReloadV {
            stale: self.stale_among(
                text::in_order(self.definitions.dom()),
                under,
                paths_of(fs),
                ds,
            ),
            paths: ds.map_values(|d: ManifestV| source_of(d)),
            removed: 0,
            tried: 0,
            reloaded: 0,
            failed,
        }
    }

    /// The end of a reload in the journal.
    pub open spec fn log_reload(self, r: ReloadV) -> KernelV {
        self.log(
            "sys"@,
            "sys.reload"@,
            JsonV::object().with("reloaded"@, json::jnum(r.reloaded as u64)).with(
                "removed"@,
                json::jnum(r.removed as u64),
            ).with("failed"@, json::str_list(r.failed)),
        )
    }
}

fn found_paths(files: &Vec<Found>) -> (r: Vec<String>)
    ensures
        r.deep_view() == paths_of(files.deep_view()),
{
    let mut out: Vec<String> = Vec::new();
    let mut i: usize = 0;
    while i < files.len()
        invariant
            i <= files.len(),
            out.len() == i,
            forall|j: int| 0 <= j < i ==> (#[trigger] out[j])@ == files[j].path@,
        decreases files.len() - i,
    {
        out.push(files[i].path.clone());
        i += 1;
    }
    assert(out.deep_view() =~= paths_of(files.deep_view()));
    out
}

fn sources(ds: &Vec<StoredManifest>) -> (r: Vec<String>)
    ensures
        r.deep_view() == ds.deep_view().map_values(|d: ManifestV| source_of(d)),
{
    let mut out: Vec<String> = Vec::new();
    let mut i: usize = 0;
    while i < ds.len()
        invariant
            i <= ds.len(),
            out.len() == i,
            forall|j: int| 0 <= j < i ==> (#[trigger] out[j])@ == source_of(ds[j]@),
        decreases ds.len() - i,
    {
        let p = match &ds[i].source {
            Some(p) => p.clone(),
            None => text::owned(""),
        };
        proof {
            reveal_strlit("");
            assert(""@ =~= Seq::<char>::empty());
            assert(p@ == source_of(ds[i as int]@));
        }
        out.push(p);
        i += 1;
    }
    assert(out.deep_view() =~= ds.deep_view().map_values(|d: ManifestV| source_of(d)));
    out
}

impl Reload {
    /// Tells whether the file that was handed out last could be loaded.
    pub fn told(&mut self, loaded: bool)
        requires
            old(self)@.wf(),
        ensures
            final(self)@ == old(self)@.told(loaded),
            final(self)@.wf(),
    {
        if self.tried == 0 {
            return;
        }
        if loaded {
            if self.reloaded < self.tried {
                self.reloaded = self.reloaded + 1;
            }
        } else {
            let m = text::join2(&self.paths[self.tried - 1], ": activation failed");
            let ghost before = self.failed.deep_view();
            let ghost v = m@;
            self.failed.push(m);
            assert(self.failed.deep_view() =~= before.push(v));
        }
    }
}

impl Kernel {
    /// Begins a reload: validates the files that were found without
    /// publishing anything, and sees which definitions are out of date.
    pub fn reload(&self, files: &Vec<Found>, under: &Vec<String>) -> (r: Reload)
        ensures
            r@ == self@.reload(files.deep_view(), under.deep_view()),
            r@.wf(),
    {
        let (candidates, failed) = operations::read_candidates(files);
        let present = found_paths(files);
        Reload {
            stale: self.stale_definitions(under, &present, &candidates),
            paths: sources(&candidates),
            removed: 0,
            tried: 0,
            reloaded: 0,
            failed,
        }
    }

    /// The next step of a reload. The last one goes to the journal.
    pub fn reload_step(&mut self, r: &mut Reload) -> (step: ReloadStep)
        requires
            old(r)@.wf(),
        ensures
            (final(r)@, step@) == old(r)@.next(),
            final(r)@.wf(),
            final(self)@ == if step@ is Over {
                old(self)@.log_reload(old(r)@)
            } else {
                old(self)@
            },
    {
        if r.removed < r.stale.len() {
            let id = r.stale[r.removed].clone();
            r.removed = r.removed + 1;
            ReloadStep::Remove(id)
        } else if r.tried < r.paths.len() {
            let path = r.paths[r.tried].clone();
            r.tried = r.tried + 1;
            ReloadStep::Load(path)
        } else {
            let n = r.reloaded;
            let args = Json::object().with(
                "reloaded",
                Json::num(n as u64),
            ).with("removed", Json::num(r.removed as u64)).with(
                "failed",
                Json::str_list(&r.failed),
            );
            self.log("sys", "sys.reload", args);
            ReloadStep::Over(n)
        }
    }
}

/// A reload that is carried out removes every definition that is out of date
/// before it loads anything, tries every valid file once, and then ends.
pub proof fn reloads_end(r: ReloadV, loaded: bool)
    requires
        r.wf(),
    ensures
        r.left() >= 0,
        !(r.next().1 is Over) ==> r.next().0.told(loaded).left() == r.left() - 1 && r.next().0.told(
            loaded,
        ).wf(),
        r.next().1 is Over <==> r.left() == 0,
        r.next().1 is Load ==> r.removed == r.stale.len(),
{
}

} // verus!
