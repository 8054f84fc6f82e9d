//! Dependencies and bindings.
//!
//! - A definition declares `requires` (mandatory interfaces) and `provides`.
//! - A requirement names its provider, or has to have a single one; ambiguity
//!   is an error, never "last registration wins".
//! - The mandatory graph is acyclic; a cycle is reported with its path.
//!
//! Accepted forms of a `requires` item:
//! - `"workspace.fs@1"`: interface and major, provider found by uniqueness;
//! - `"workspace.fs"`: interface without major, any version matches;
//! - `{"interface": "workspace.fs@1"}`: the same as the string form;
//! - `{"interface": "workspace.fs", "major": 1, "provider": "workspace"}`:
//!   explicit binding to a logical id.
//!
//! `provides` accepts the same interface forms, without `provider`.

use vstd::prelude::*;
use vstd::string::*;
use crate::json::{Json, JsonV};
use crate::text;
use crate::text::Text;

pub use crate::graph::{
    find_cycle, graph_edges, provider_candidates, topo_order, transitive_consumers,
};

verus! {

/// A required interface.
#[derive(Debug)]
pub struct Requirement {
    /// Requested interface, normalized (`base` or `base@major`).
    pub interface: String,
    pub base: String,
    pub major: Option<u64>,
    /// Logical id of the required provider, where the binding is explicit.
    pub provider: Option<String>,
}

pub struct RequirementV {
    pub interface: Text,
    pub base: Text,
    pub major: Option<u64>,
    pub provider: Option<Text>,
}

impl View for Requirement {
    type V = RequirementV;

    open spec fn view(&self) -> RequirementV {
        RequirementV {
            interface: self.interface@,
            base: self.base@,
            major: self.major,
            provider: self.provider.deep_view(),
        }
    }
}

impl DeepView for Requirement {
    type V = RequirementV;

    open spec fn deep_view(&self) -> RequirementV {
        self@
    }
}

impl Requirement {
    pub fn copy(&self) -> (r: Requirement)
        ensures
            r@ == self@,
    {
        Requirement {
            interface: self.interface.clone(),
            base: self.base.clone(),
            major: self.major,
            provider: text::copy_opt(&self.provider),
        }
    }
}

/// A copy of a list of requirements.
pub fn copy_requirements(v: &Vec<Requirement>) -> (r: Vec<Requirement>)
    ensures
        r.deep_view() == v.deep_view(),
{
    let mut r: Vec<Requirement> = Vec::new();
    let mut i: usize = 0;
    while i < v.len()
        invariant
            i <= v.len(),
            r.len() == i,
            forall|j: int| 0 <= j < i ==> (#[trigger] r[j])@ == v[j]@,
        decreases v.len() - i,
    {
        r.push(v[i].copy());
        i += 1;
    }
    assert(r.deep_view() =~= v.deep_view());
    r
}

/// A requirement bound to one activation of a provider.
#[derive(Debug)]
pub struct Binding {
    pub interface: String,
    pub provider_logical: String,
    pub provider_instance: u64,
    pub provider_generation: u64,
}

pub struct BindingV {
    pub interface: Text,
    pub provider_logical: Text,
    pub provider_instance: u64,
    pub provider_generation: u64,
}

impl View for Binding {
    type V = BindingV;

    open spec fn view(&self) -> BindingV {
        BindingV {
            interface: self.interface@,
            provider_logical: self.provider_logical@,
            provider_instance: self.provider_instance,
            provider_generation: self.provider_generation,
        }
    }
}

impl DeepView for Binding {
    type V = BindingV;

    open spec fn deep_view(&self) -> BindingV {
        self@
    }
}

impl Binding {
    pub fn copy(&self) -> (r: Binding)
        ensures
            r@ == self@,
    {
        Binding {
            interface: self.interface.clone(),
            provider_logical: self.provider_logical.clone(),
            provider_instance: self.provider_instance,
            provider_generation: self.provider_generation,
        }
    }
}

/// A copy of a list of bindings.
pub fn copy_bindings(v: &Vec<Binding>) -> (r: Vec<Binding>)
    ensures
        r.deep_view() == v.deep_view(),
{
    let mut r: Vec<Binding> = Vec::new();
    let mut i: usize = 0;
    while i < v.len()
        invariant
            i <= v.len(),
            r.len() == i,
            forall|j: int| 0 <= j < i ==> (#[trigger] r[j])@ == v[j]@,
        decreases v.len() - i,
    {
        r.push(v[i].copy());
        i += 1;
    }
    assert(r.deep_view() =~= v.deep_view());
    r
}

// ---- capability names -------------------------------------------------

/// `"ns.name@MAJOR"` as base and major; a name without a readable major is
/// its own base.
pub open spec fn split(s: Text) -> (Text, Option<u64>) {
    let t = text::trimmed(s);
    let at = text::last_index(t, '@');
    if at < 0 {
        (t, None)
    } else {
        match text::parsed_u64(t.skip(at + 1)) {
            Some(n) => (t.take(at), Some(n)),
            None => (t, None),
        }
    }
}

/// `base@major`, or the base alone.
pub open spec fn norm(base: Text, major: Option<u64>) -> Text {
    match major {
        Some(m) => base + "@"@ + text::dec(m as nat),
        None => base,
    }
}

/// Splits `"ns.name@MAJOR"` into `(base, Some(major))`.
/// Without `@`, or with an unreadable major, the whole trimmed text is the
/// base and any version matches.
pub fn split_cap(s: &str) -> (r: (String, Option<u64>))
    ensures
        (r.0@, r.1) == split(s@),
{
    let t = text::trim(s);
    let v = text::chars_of(&t);
    match text::rfind(&v, '@') {
        Some(at) => {
            let tail = t.as_str().substring_char(at + 1, v.len());
            proof {
                assert(t@.subrange(at + 1, v.len() as int) =~= t@.skip(at + 1));
                assert(t@.subrange(0, at as int) =~= t@.take(at as int));
            }
            match text::parse_u64(tail) {
                Some(n) => (t.as_str().substring_char(0, at).to_owned(), Some(n)),
                None => (t, None),
            }
        },
        None => (t, None),
    }
}

/// `base@major`, or the base alone.
pub fn norm_cap(base: &str, major: Option<u64>) -> (r: String)
    ensures
        r@ == norm(base@, major),
{
    match major {
        Some(m) => {
            let b = text::join2(base, "@");
            text::numbered(&b, m)
        },
        None => base.to_owned(),
    }
}

/// A provided capability satisfies a requirement if the base matches and the
/// major is compatible; a requirement without major matches any version.
pub open spec fn satisfies(cap: Text, req: RequirementV) -> bool {
    let (base, major) = split(cap);
    base == req.base && (req.major is Some ==> major == req.major)
}

/// Whether the capability `provided_cap` satisfies `req`.
pub fn cap_satisfies(provided_cap: &str, req: &Requirement) -> (r: bool)
    ensures
        r == satisfies(provided_cap@, req@),
{
    let (base, major) = split_cap(provided_cap);
    if !text::same(&base, &req.base) {
        return false;
    }
    match (req.major, major) {
        (Some(want), Some(got)) => want == got,
        (Some(_), None) => false,
        (None, _) => true,
    }
}

// ---- declarations -----------------------------------------------------

/// The requirement that one `requires` item spells, or what is wrong with it.
pub open spec fn required(v: JsonV) -> Result<RequirementV, Text> {
    match v {
        JsonV::Str(s) => {
            let (base, major) = split(s);
            if text::trimmed(s).len() == 0 {
                Err("requires entry vazio"@)
            } else if base.len() == 0 {
                Err("invalid requires: "@ + text::quoted(s))
            } else {
                Ok(RequirementV { interface: norm(base, major), base, major, provider: None })
            }
        },
        JsonV::Object(_) => {
            let iface = match v.str_at("interface"@) {
                Some(s) => text::trimmed(s),
                None => Seq::empty(),
            };
            let (base, own) = split(iface);
            let major = match v.u64_at("major"@) {
                Some(m) => Some(m),
                None => own,
            };
            let provider = match v.str_at("provider"@) {
                Some(p) => if text::trimmed(p).len() > 0 {
                    Some(text::trimmed(p))
                } else {
                    None
                },
                None => None,
            };
            if iface.len() == 0 {
                Err("requires sem 'interface'"@)
            } else if base.len() == 0 {
                Err("invalid requires: "@ + text::quoted(iface))
            } else {
                Ok(RequirementV { interface: norm(base, major), base, major, provider })
            }
        },
        _ => Err("requires deve ser string ou objeto"@),
    }
}

/// The requirements of a list of items; the first faulty one is reported.
pub open spec fn required_all(vs: Seq<JsonV>) -> Result<Seq<RequirementV>, Text>
    decreases vs.len(),
{
    if vs.len() == 0 {
        Ok(Seq::empty())
    } else {
        match required_all(vs.drop_last()) {
            Err(e) => Err(e),
            Ok(rs) => match required(vs.last()) {
                Err(e) => Err(e),
                Ok(r) => Ok(rs.push(r)),
            },
        }
    }
}

proof fn required_all_fails(vs: Seq<JsonV>, i: int)
    requires
        0 <= i <= vs.len(),
        required_all(vs.take(i)) is Err,
    ensures
        required_all(vs) == required_all(vs.take(i)),
    decreases vs.len() - i,
{
    if i < vs.len() {
        assert(vs.take(i + 1).drop_last() =~= vs.take(i));
        required_all_fails(vs, i + 1);
    } else {
        assert(vs.take(i) =~= vs);
    }
}

/// What the manifest member `requires` declares.
pub open spec fn declared_requires(v: Option<JsonV>) -> Result<Seq<RequirementV>, Text> {
    match v {
        None => Ok(Seq::empty()),
        Some(j) => match j.array_of() {
            Some(a) => required_all(a),
            None => Err("'requires' deve ser array"@),
        },
    }
}

/// A result whose error is a text, as the contracts see it.
pub open spec fn outcome<T: DeepView>(r: Result<T, String>) -> Result<T::V, Text> {
    match r {
        Ok(x) => Ok(x.deep_view()),
        Err(e) => Err(e@),
    }
}

/// The named member, or an absent value.
pub open spec fn opt_json(v: Option<&Json>) -> Option<JsonV> {
    match v {
        Some(j) => Some(j@),
        None => None,
    }
}

fn parse_require_value(v: &Json) -> (r: Result<Requirement, String>)
    ensures
        outcome(r) == required(v@),
{
    match v {
        Json::Str(s) => {
            if text::blank(s) {
                return Err("requires entry vazio".to_owned());
            }
            let (base, major) = split_cap(s);
            if base.as_str().is_empty() {
                let q = text::quote(s);
                return Err(text::join2("invalid requires: ", &q));
            }
            Ok(Requirement { interface: norm_cap(&base, major), base, major, provider: None })
        },
        Json::Object(_) => {
            let iface = match v.str_at("interface") {
                Some(s) => text::trim(s),
                None => String::new(),
            };
            if iface.as_str().is_empty() {
                return Err("requires sem 'interface'".to_owned());
            }
            let (base, own) = split_cap(&iface);
            if base.as_str().is_empty() {
                let q = text::quote(&iface);
                return Err(text::join2("invalid requires: ", &q));
            }
            let major: Option<u64> = match v.u64_at("major") {
                Some(m) => Some(m),
                None => own,
            };
            let provider = match v.str_at("provider") {
                Some(p) => {
                    let t = text::trim(p);
                    if t.as_str().is_empty() {
                        None
                    } else {
                        Some(t)
                    }
                },
                None => None,
            };
            Ok(Requirement { interface: norm_cap(&base, major), base, major, provider })
        },
        _ => Err("requires deve ser string ou objeto".to_owned()),
    }
}

/// Reads the manifest member `requires`.
pub fn parse_requires(v: Option<&Json>) -> (r: Result<Vec<Requirement>, String>)
    ensures
        outcome(r) == declared_requires(opt_json(v)),
{
    let arr = match v {
        None => {
            let none: Vec<Requirement> = Vec::new();
            assert(none.deep_view() =~= Seq::<RequirementV>::empty());
            return Ok(none);
        },
        Some(j) => match j.as_array() {
            Some(a) => a,
            None => return Err("'requires' deve ser array".to_owned()),
        },
    };
    let ghost vs = arr.deep_view();
    let mut out: Vec<Requirement> = Vec::new();
    let mut i: usize = 0;
    proof {
        assert(vs.take(0) =~= Seq::<JsonV>::empty());
        assert(out.deep_view() =~= Seq::<RequirementV>::empty());
    }
    while i < arr.len()
        invariant
            i <= arr.len(),
            vs == arr.deep_view(),
            declared_requires(opt_json(v)) == required_all(vs),
            required_all(vs.take(i as int)) == Ok::<Seq<RequirementV>, Text>(out.deep_view()),
        decreases arr.len() - i,
    {
        proof {
            assert(vs.take(i + 1).drop_last() =~= vs.take(i as int));
            assert(vs.take(i + 1).last() == arr[i as int]@);
        }
        match parse_require_value(&arr[i]) {
            Ok(r) => {
                let ghost before = out.deep_view();
                out.push(r);
                proof {
                    assert(out.deep_view() =~= before.push(r@));
                }
            },
            Err(e) => {
                proof {
                    required_all_fails(vs, i + 1);
                }
                return Err(e);
            },
        }
        i += 1;
    }
    proof {
        assert(vs.take(vs.len() as int) =~= vs);
    }
    Ok(out)
}

/// The capability that one `provides` item spells, or what is wrong with it.
pub open spec fn provided(v: JsonV) -> Result<Text, Text> {
    match v {
        JsonV::Str(s) => if text::trimmed(s).len() == 0 {
            Err("provides/capability vazio"@)
        } else {
            Ok(norm(split(s).0, split(s).1))
        },
        JsonV::Object(_) => {
            let iface = match v.str_at("interface"@) {
                Some(s) => text::trimmed(s),
                None => Seq::empty(),
            };
            let (base, own) = split(iface);
            let major = match v.u64_at("major"@) {
                Some(m) => Some(m),
                None => own,
            };
            if iface.len() == 0 {
                Err("provides sem 'interface'"@)
            } else if base.len() == 0 {
                Err("invalid provides: "@ + text::quoted(iface))
            } else {
                Ok(norm(base, major))
            }
        },
        _ => Err("provides deve ter strings ou objetos"@),
    }
}

/// The capabilities of a list of items; the first faulty one is reported.
pub open spec fn provided_all(vs: Seq<JsonV>) -> Result<Seq<Text>, Text>
    decreases vs.len(),
{
    if vs.len() == 0 {
        Ok(Seq::empty())
    } else {
        match provided_all(vs.drop_last()) {
            Err(e) => Err(e),
            Ok(cs) => match provided(vs.last()) {
                Err(e) => Err(e),
                Ok(c) => Ok(cs.push(c)),
            },
        }
    }
}

proof fn provided_all_fails(vs: Seq<JsonV>, i: int)
    requires
        0 <= i <= vs.len(),
        provided_all(vs.take(i)) is Err,
    ensures
        provided_all(vs) == provided_all(vs.take(i)),
    decreases vs.len() - i,
{
    if i < vs.len() {
        assert(vs.take(i + 1).drop_last() =~= vs.take(i));
        provided_all_fails(vs, i + 1);
    } else {
        assert(vs.take(i) =~= vs);
    }
}

/// What the manifest member `provides` declares.
pub open spec fn declared_provides(v: Option<JsonV>) -> Result<Seq<Text>, Text> {
    match v {
        None => Ok(Seq::empty()),
        Some(j) => match j.array_of() {
            Some(a) => provided_all(a),
            None => Err("'provides' deve ser array"@),
        },
    }
}

fn parse_provide_value(v: &Json) -> (r: Result<String, String>)
    ensures
        outcome(r) == provided(v@),
{
    match v {
        Json::Str(s) => {
            let t = text::trim(s);
            if t.as_str().is_empty() {
                Err("provides/capability vazio".to_owned())
            } else {
                let (base, major) = split_cap(s);
                Ok(norm_cap(&base, major))
            }
        },
        Json::Object(_) => {
            let iface = match v.str_at("interface") {
                Some(s) => text::trim(s),
                None => String::new(),
            };
            if iface.as_str().is_empty() {
                return Err("provides sem 'interface'".to_owned());
            }
            let (base, own) = split_cap(&iface);
            let major: Option<u64> = match v.u64_at("major") {
                Some(m) => Some(m),
                None => own,
            };
            if base.as_str().is_empty() {
                let q = text::quote(&iface);
                return Err(text::join2("invalid provides: ", &q));
            }
            Ok(norm_cap(&base, major))
        },
        _ => Err("provides deve ter strings ou objetos".to_owned()),
    }
}

/// Reads the manifest member `provides` into canonical capability names.
pub fn parse_provides(v: Option<&Json>) -> (r: Result<Vec<String>, String>)
    ensures
        outcome(r) == declared_provides(opt_json(v)),
{
    let arr = match v {
        None => {
            let none: Vec<String> = Vec::new();
            assert(none.deep_view() =~= Seq::<Text>::empty());
            return Ok(none);
        },
        Some(j) => match j.as_array() {
            Some(a) => a,
            None => return Err("'provides' deve ser array".to_owned()),
        },
    };
    let ghost vs = arr.deep_view();
    let mut out: Vec<String> = Vec::new();
    let mut i: usize = 0;
    proof {
        assert(vs.take(0) =~= Seq::<JsonV>::empty());
        assert(out.deep_view() =~= Seq::<Text>::empty());
    }
    while i < arr.len()
        invariant
            i <= arr.len(),
            vs == arr.deep_view(),
            declared_provides(opt_json(v)) == provided_all(vs),
            provided_all(vs.take(i as int)) == Ok::<Seq<Text>, Text>(out.deep_view()),
        decreases arr.len() - i,
    {
        proof {
            assert(vs.take(i + 1).drop_last() =~= vs.take(i as int));
            assert(vs.take(i + 1).last() == arr[i as int]@);
        }
        match parse_provide_value(&arr[i]) {
            Ok(c) => {
                let ghost before = out.deep_view();
                out.push(c);
                proof {
                    assert(out.deep_view() =~= before.push(c@));
                }
            },
            Err(e) => {
                proof {
                    provided_all_fails(vs, i + 1);
                }
                return Err(e);
            },
        }
        i += 1;
    }
    proof {
        assert(vs.take(vs.len() as int) =~= vs);
    }
    Ok(out)
}

// ---- why a requirement stays open -------------------------------------

/// Why a requirement has no binding.
#[derive(Debug)]
pub enum ResolveError {
    Missing { interface: String },
    Ambiguous { interface: String, providers: Vec<String> },
    VersionMismatch { interface: String, provider: String, detail: String },
    UnknownProvider { interface: String, provider: String },
    ProviderNotActive { interface: String, provider: String, state: String },
    Cycle { path: Vec<String> },
}

pub enum ResolveErrorV {
    Missing { interface: Text },
    Ambiguous { interface: Text, providers: Seq<Text> },
    VersionMismatch { interface: Text, provider: Text, detail: Text },
    UnknownProvider { interface: Text, provider: Text },
    ProviderNotActive { interface: Text, provider: Text, state: Text },
    Cycle { path: Seq<Text> },
}

impl View for ResolveError {
    type V = ResolveErrorV;

    open spec fn view(&self) -> ResolveErrorV {
        match self {
            ResolveError::Missing { interface } => ResolveErrorV::Missing {
                interface: interface@,
            },
            ResolveError::Ambiguous { interface, providers } => ResolveErrorV::Ambiguous {
                interface: interface@,
                providers: providers.deep_view(),
            },
            ResolveError::VersionMismatch { interface, provider, detail } =>
                ResolveErrorV::VersionMismatch {
                interface: interface@,
                provider: provider@,
                detail: detail@,
            },
            ResolveError::UnknownProvider { interface, provider } =>
                ResolveErrorV::UnknownProvider { interface: interface@, provider: provider@ },
            ResolveError::ProviderNotActive { interface, provider, state } =>
                ResolveErrorV::ProviderNotActive {
                interface: interface@,
                provider: provider@,
                state: state@,
            },
            ResolveError::Cycle { path } => ResolveErrorV::Cycle { path: path.deep_view() },
        }
    }
}

impl ResolveErrorV {
    /// The reason shown to the operator.
    pub open spec fn reason(self) -> Text {
        match self {
            ResolveErrorV::Missing { interface } => {
                "dependency-unavailable: no definition provides "@ + interface
            },
            ResolveErrorV::Ambiguous { interface, providers } => {
                "ambiguous-provider: "@ + interface + " provided by ["@ + text::joined(
                    providers,
                    ", "@,
                ) + "]; use an explicit binding"@
            },
            ResolveErrorV::VersionMismatch { interface, provider, detail } => {
                "dependency-unavailable: "@ + interface + " at "@ + provider
                    + " is incompatible ("@ + detail + ")"@
            },
            ResolveErrorV::UnknownProvider { interface, provider } => {
                "dependency-unavailable: provider '"@ + provider + "' of "@ + interface
                    + " is unknown"@
            },
            ResolveErrorV::ProviderNotActive { interface, provider, state } => {
                "dependency-unavailable: provider '"@ + provider + "' of "@ + interface + " is "@
                    + state
            },
            ResolveErrorV::Cycle { path } => "cycle: "@ + text::joined(path, " -> "@),
        }
    }
}

impl ResolveError {
    /// The reason shown to the operator.
    pub fn reason(&self) -> (r: String)
        ensures
            r@ == self@.reason(),
    {
        match self {
            ResolveError::Missing { interface } => text::join2(
                "dependency-unavailable: no definition provides ",
                interface,
            ),
            ResolveError::Ambiguous { interface, providers } => {
                let mut r = text::join2("ambiguous-provider: ", interface);
                r.append(" provided by [");
                let list = text::join(providers, ", ");
                r.append(&list);
                r.append("]; use an explicit binding");
                r
            },
            ResolveError::VersionMismatch { interface, provider, detail } => {
                let mut r = text::join2("dependency-unavailable: ", interface);
                r.append(" at ");
                r.append(provider);
                r.append(" is incompatible (");
                r.append(detail);
                r.append(")");
                r
            },
            ResolveError::UnknownProvider { interface, provider } => {
                let mut r = text::join2("dependency-unavailable: provider '", provider);
                r.append("' of ");
                r.append(interface);
                r.append(" is unknown");
                r
            },
            ResolveError::ProviderNotActive { interface, provider, state } => {
                let mut r = text::join2("dependency-unavailable: provider '", provider);
                r.append("' of ");
                r.append(interface);
                r.append(" is ");
                r.append(state);
                r
            },
            ResolveError::Cycle { path } => {
                let list = text::join(path, " -> ");
                text::join2("cycle: ", &list)
            },
        }
    }
}

} // verus!
