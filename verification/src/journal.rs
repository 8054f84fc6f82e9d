//! Write-ahead journal: appended in `seq` order, read back as entries, and
//! replayed as a fold over them.
//!
//! Appending numbers an entry and queues it; whoever owns the file takes the
//! queue, stamps each entry with the time and writes its line.

use vstd::prelude::*;
use vstd::string::*;
use crate::json;
use crate::json::{Json, JsonV};
use crate::num;
use crate::text;
use crate::text::Text;

verus! {

/// An entry read from the journal.
#[derive(Debug)]
pub struct Entry {
    pub seq: u64,
    pub fiber: String,
    pub kind: String,
    pub args: Json,
    pub ts: String,
    pub undo: Json,
    pub v: u64,
}

pub struct EntryV {
    pub seq: u64,
    pub fiber: Text,
    pub kind: Text,
    pub args: JsonV,
    pub ts: Text,
    pub undo: JsonV,
    pub v: u64,
}

impl View for Entry {
    type V = EntryV;

    open spec fn view(&self) -> EntryV {
        EntryV {
            seq: self.seq,
            fiber: self.fiber@,
            kind: self.kind@,
            args: self.args@,
            ts: self.ts@,
            undo: self.undo@,
            v: self.v,
        }
    }
}

impl DeepView for Entry {
    type V = EntryV;

    open spec fn deep_view(&self) -> EntryV {
        self@
    }
}

impl Entry {
    pub fn copy(&self) -> (r: Entry)
        ensures
            r@ == self@,
    {
        Entry {
            seq: self.seq,
            fiber: self.fiber.clone(),
            kind: self.kind.clone(),
            args: self.args.copy(),
            ts: self.ts.clone(),
            undo: self.undo.copy(),
            v: self.v,
        }
    }
}

/// A numbered entry that is not written yet.
#[derive(Debug)]
pub struct Line {
    pub seq: u64,
    pub fiber: String,
    pub kind: String,
    pub args: Json,
    pub undo: Json,
    pub v: u64,
}

pub struct LineV {
    pub seq: u64,
    pub fiber: Text,
    pub kind: Text,
    pub args: JsonV,
    pub undo: JsonV,
    pub v: u64,
}

impl View for Line {
    type V = LineV;

    open spec fn view(&self) -> LineV {
        LineV {
            seq: self.seq,
            fiber: self.fiber@,
            kind: self.kind@,
            args: self.args@,
            undo: self.undo@,
            v: self.v,
        }
    }
}

impl DeepView for Line {
    type V = LineV;

    open spec fn deep_view(&self) -> LineV {
        self@
    }
}

impl LineV {
    /// The entry once stamped.
    pub open spec fn at(self, ts: Text) -> EntryV {
        EntryV {
            seq: self.seq,
            fiber: self.fiber,
            kind: self.kind,
            args: self.args,
            ts,
            undo: self.undo,
            v: self.v,
        }
    }

    /// The object that is written.
    pub open spec fn object(self, ts: Text) -> JsonV {
        JsonV::Object(
            seq![
                ("args"@, self.args),
                ("fiber"@, JsonV::Str(self.fiber)),
                ("kind"@, JsonV::Str(self.kind)),
                ("seq"@, JsonV::Unsigned(self.seq)),
                ("ts"@, JsonV::Str(ts)),
                ("undo"@, self.undo),
                ("v"@, JsonV::Unsigned(self.v)),
            ],
        )
    }
}

/// `secs.mmm`.
pub open spec fn stamp(secs: u64, millis: u32) -> Text {
    text::dec(secs as nat) + "."@ + (if millis < 10 {
        "00"@
    } else if millis < 100 {
        "0"@
    } else {
        ""@
    }) + text::dec(millis as nat)
}

/// A time stamp: seconds and milliseconds.
pub fn format_ts(secs: u64, millis: u32) -> (r: String)
    ensures
        r@ == stamp(secs, millis),
{
    let mut r = text::dec_text(secs);
    r.append(".");
    r.append(
        if millis < 10 {
            "00"
        } else if millis < 100 {
            "0"
        } else {
            ""
        },
    );
    r.append(&text::dec_text(millis as u64));
    r
}

/// The string member `k`, or the empty text.
pub open spec fn str_or_empty(v: JsonV, k: Text) -> Text {
    match v.str_at(k) {
        Some(s) => s,
        None => Seq::empty(),
    }
}

/// The member `k`, or null.
pub open spec fn or_null(v: JsonV, k: Text) -> JsonV {
    match v.get(k) {
        Some(x) => x,
        None => JsonV::Null,
    }
}

/// The entry that a value spells; what is missing has a default.
pub open spec fn entry_of(v: JsonV) -> EntryV {
    EntryV {
        seq: match v.u64_at("seq"@) {
            Some(n) => n,
            None => 0,
        },
        fiber: str_or_empty(v, "fiber"@),
        kind: str_or_empty(v, "kind"@),
        args: or_null(v, "args"@),
        ts: str_or_empty(v, "ts"@),
        undo: or_null(v, "undo"@),
        v: match v.u64_at("v"@) {
            Some(n) => n,
            None => 1,
        },
    }
}

/// The entry that a line spells, if it is JSON.
pub open spec fn read_line(line: Text) -> Option<EntryV> {
    match json::json_parsed(line) {
        Ok(v) => Some(entry_of(v)),
        Err(_) => None,
    }
}

/// The entry read back from what was written is the one that was written.
pub proof fn entry_survives(l: LineV, ts: Text)
    ensures
        entry_of(l.object(ts)) == l.at(ts),
        json::ordered_members(l.object(ts)->Object_0),
{
    reveal_strlit("args");
    reveal_strlit("fiber");
    reveal_strlit("kind");
    reveal_strlit("seq");
    reveal_strlit("ts");
    reveal_strlit("undo");
    reveal_strlit("v");
    let ms = l.object(ts)->Object_0;
    let ks = Seq::new(ms.len(), |i: int| ms[i].0);
    reveal_with_fuel(text::text_lt, 2);
    assert(ks.len() == 7);
    assert(ks[0] == "args"@ && ks[1] == "fiber"@ && ks[2] == "kind"@ && ks[3] == "seq"@ && ks[4]
        == "ts"@ && ks[5] == "undo"@ && ks[6] == "v"@);
    assert(ks[0][0] == 'a' && ks[1][0] == 'f' && ks[2][0] == 'k' && ks[3][0] == 's' && ks[4][0]
        == 't' && ks[5][0] == 'u' && ks[6][0] == 'v');
    assert(text::ascending(ks)) by {
        assert forall|i: int, j: int| 0 <= i < j < ks.len() implies text::text_lt(
            #[trigger] ks[i],
            #[trigger] ks[j],
        ) by {
            assert(ks[i].len() > 0 && ks[j].len() > 0);
            assert(ks[i][0] < ks[j][0]);
        }
    }
    json::member_at(ms, 0);
    json::member_at(ms, 1);
    json::member_at(ms, 2);
    json::member_at(ms, 3);
    json::member_at(ms, 4);
    json::member_at(ms, 5);
    json::member_at(ms, 6);
}

// ---- reading ----------------------------------------------------------

fn str_at_or_empty(v: &Json, k: &str) -> (r: String)
    ensures
        r@ == str_or_empty(v@, k@),
{
    match v.str_at(k) {
        Some(s) => s.clone(),
        None => String::new(),
    }
}

fn at_or_null(v: &Json, k: &str) -> (r: Json)
    ensures
        r@ == or_null(v@, k@),
{
    match v.get(k) {
        Some(x) => x.copy(),
        None => Json::Null,
    }
}

/// The entry that a value spells; what is missing has a default.
pub fn entry_from(v: &Json) -> (r: Entry)
    ensures
        r@ == entry_of(v@),
{
    Entry {
        seq: match v.u64_at("seq") {
            Some(n) => n,
            None => 0,
        },
        fiber: str_at_or_empty(v, "fiber"),
        kind: str_at_or_empty(v, "kind"),
        args: at_or_null(v, "args"),
        ts: str_at_or_empty(v, "ts"),
        undo: at_or_null(v, "undo"),
        v: match v.u64_at("v") {
            Some(n) => n,
            None => 1,
        },
    }
}

/// `e` placed before the trailing entries with greater numbers.
pub open spec fn seq_insert(es: Seq<EntryV>, e: EntryV) -> Seq<EntryV>
    decreases es.len(),
{
    if es.len() == 0 || es.last().seq <= e.seq {
        es.push(e)
    } else {
        seq_insert(es.drop_last(), e).push(es.last())
    }
}

/// The entries of the readable lines, by number; equal numbers stay in the
/// order of the lines.
pub open spec fn entries_of(lines: Seq<Text>) -> Seq<EntryV>
    decreases lines.len(),
{
    if lines.len() == 0 {
        Seq::empty()
    } else {
        match read_line(lines.last()) {
            Some(e) => seq_insert(entries_of(lines.drop_last()), e),
            None => entries_of(lines.drop_last()),
        }
    }
}

proof fn seq_insert_at(v: Seq<EntryV>, e: EntryV, k: int)
    requires
        0 <= k <= v.len(),
        forall|j: int| k <= j < v.len() ==> (#[trigger] v[j]).seq > e.seq,
        k > 0 ==> v[k - 1].seq <= e.seq,
    ensures
        seq_insert(v, e) == v.insert(k, e),
    decreases v.len(),
{
    if k == v.len() {
        assert(v.push(e) =~= v.insert(k, e));
    } else {
        assert(v[v.len() - 1].seq > e.seq);
        seq_insert_at(v.drop_last(), e, k);
        assert(v.drop_last().insert(k, e).push(v.last()) =~= v.insert(k, e));
    }
}

pub open spec fn by_seq(es: Seq<EntryV>) -> bool {
    forall|i: int, j: int| 0 <= i <= j < es.len() ==> (#[trigger] es[i]).seq <= (
    #[trigger] es[j]).seq
}

proof fn seq_insert_sorted(es: Seq<EntryV>, e: EntryV)
    requires
        by_seq(es),
    ensures
        by_seq(seq_insert(es, e)),
        forall|i: int|
            0 <= i < seq_insert(es, e).len() ==> (#[trigger] seq_insert(es, e)[i]) == e
                || es.contains(seq_insert(es, e)[i]),
        seq_insert(es, e).len() == es.len() + 1,
    decreases es.len(),
{
    let w = seq_insert(es, e);
    if es.len() == 0 || es.last().seq <= e.seq {
        assert forall|i: int| 0 <= i < w.len() implies (#[trigger] w[i]) == e || es.contains(
            w[i],
        ) by {
            if i < es.len() {
                assert(es[i] == w[i]);
            }
        }
        assert forall|i: int, j: int| 0 <= i <= j < w.len() implies (#[trigger] w[i]).seq <= (
        #[trigger] w[j]).seq by {
            if j == es.len() && i < es.len() {
                assert(es[i].seq <= es[es.len() - 1].seq);
            }
        }
    } else {
        let d = es.drop_last();
        seq_insert_sorted(d, e);
        let u = seq_insert(d, e);
        assert forall|i: int| 0 <= i < w.len() implies (#[trigger] w[i]) == e || es.contains(
            w[i],
        ) by {
            if i < u.len() {
                assert(u[i] == w[i]);
                if u[i] != e {
                    assert(d.contains(u[i]));
                    let k = choose|k: int| 0 <= k < d.len() && d[k] == u[i];
                    assert(es[k] == w[i]);
                }
            } else {
                assert(es[es.len() - 1] == w[i]);
            }
        }
        assert forall|i: int, j: int| 0 <= i <= j < w.len() implies (#[trigger] w[i]).seq <= (
        #[trigger] w[j]).seq by {
            if j < u.len() {
                assert(u[i].seq <= u[j].seq);
            } else if i < u.len() {
                if u[i] != e {
                    assert(d.contains(u[i]));
                    let k = choose|k: int| 0 <= k < d.len() && d[k] == u[i];
                    assert(es[k].seq <= es[es.len() - 1].seq);
                }
            }
        }
    }
}

/// What is read is in `seq` order, whatever the order of the lines.
pub proof fn entries_are_ordered(lines: Seq<Text>)
    ensures
        by_seq(entries_of(lines)),
        entries_of(lines).len() <= lines.len(),
    decreases lines.len(),
{
    if lines.len() > 0 {
        entries_are_ordered(lines.drop_last());
        if let Some(e) = read_line(lines.last()) {
            seq_insert_sorted(entries_of(lines.drop_last()), e);
        }
    }
}

/// The numbered entries that are not written yet.
#[verifier::ext_equal]
pub struct JournalV {
    pub seq: u64,
    pub core_v2: bool,
    pub pending: Seq<LineV>,
}

impl JournalV {
    /// The line that is appended next.
    pub open spec fn next_line(self, fiber: Text, kind: Text, args: JsonV, undo: JsonV) -> LineV {
        LineV {
            seq: num::next(self.seq),
            fiber,
            kind,
            args,
            undo,
            v: if self.core_v2 {
                2
            } else {
                1
            },
        }
    }

    pub open spec fn append(self, fiber: Text, kind: Text, args: JsonV, undo: JsonV) -> JournalV {
        JournalV {
            seq: num::next(self.seq),
            pending: self.pending.push(self.next_line(fiber, kind, args, undo)),
            ..self
        }
    }
}

/// The number of the last of the entries.
pub open spec fn last_seq(es: Seq<EntryV>) -> u64 {
    if es.len() > 0 {
        es.last().seq
    } else {
        0
    }
}

#[derive(Debug)]
pub struct Journal {
    seq: u64,
    core_v2: bool,
    pending: Vec<Line>,
}

impl View for Journal {
    type V = JournalV;

    closed spec fn view(&self) -> JournalV {
        JournalV { seq: self.seq, core_v2: self.core_v2, pending: self.pending.deep_view() }
    }
}

impl Journal {
    /// Goes on after the entries of the given lines.
    pub fn open(lines: &Vec<String>, core_v2: bool) -> (r: Self)
        ensures
            r@ == (JournalV {
                seq: last_seq(entries_of(lines.deep_view())),
                core_v2,
                pending: Seq::empty(),
            }),
    {
        let es = Self::read_all(lines);
        let pending: Vec<Line> = Vec::new();
        assert(pending.deep_view() =~= Seq::<LineV>::empty());
        let seq: u64 = if es.len() > 0 {
            es[es.len() - 1].seq
        } else {
            0
        };
        Journal { seq, core_v2, pending }
    }

    /// Takes over a greater number.
    pub fn adopt_seq(&mut self, seq: u64)
        ensures
            final(self)@ == (JournalV {
                seq: if seq > old(self)@.seq {
                    seq
                } else {
                    old(self)@.seq
                },
                ..old(self)@
            }),
    {
        if seq > self.seq {
            self.seq = seq;
        }
    }

    /// Numbers an entry and queues it; returns the number.
    pub fn append(&mut self, fiber: &str, kind: &str, args: Json, undo: Json) -> (r: u64)
        ensures
            final(self)@ == old(self)@.append(fiber@, kind@, args@, undo@),
            r == final(self)@.seq,
    {
        let ghost before = self.pending.deep_view();
        self.seq = num::bump(self.seq);
        let line = Line {
            seq: self.seq,
            fiber: fiber.to_owned(),
            kind: kind.to_owned(),
            args,
            undo,
            v: if self.core_v2 {
                2
            } else {
                1
            },
        };
        let ghost lv = line@;
        self.pending.push(line);
        proof {
            assert(self.pending.deep_view() =~= before.push(lv));
        }
        self.seq
    }

    /// Takes the queued entries out, for writing.
    pub fn take_pending(&mut self) -> (r: Vec<Line>)
        ensures
            r.deep_view() == old(self)@.pending,
            final(self)@ == (JournalV { pending: Seq::empty(), ..old(self)@ }),
    {
        let mut out: Vec<Line> = Vec::new();
        std::mem::swap(&mut out, &mut self.pending);
        assert(self.pending.deep_view() =~= Seq::<LineV>::empty());
        out
    }

    /// Starts over at zero, with nothing queued.
    pub fn reset(&mut self)
        ensures
            final(self)@ == (JournalV { seq: 0, pending: Seq::empty(), ..old(self)@ }),
    {
        self.seq = 0;
        self.pending = Vec::new();
        assert(self.pending.deep_view() =~= Seq::<LineV>::empty());
    }

    /// The line that is written for an entry. Reading it gives the stamped
    /// entry back.
    pub fn line_text(line: &Line, ts: &str) -> (r: String)
        ensures
            r@ == json::json_written(line@.object(ts@)),
            json::plain(line.args@, 126) && json::plain(line.undo@, 126) ==> read_line(r@) == Some(
                line@.at(ts@),
            ),
    {
        let mut ms: Vec<(String, Json)> = Vec::new();
        ms.push(("args".to_owned(), line.args.copy()));
        ms.push(("fiber".to_owned(), Json::Str(line.fiber.clone())));
        ms.push(("kind".to_owned(), Json::Str(line.kind.clone())));
        ms.push(("seq".to_owned(), Json::Unsigned(line.seq)));
        ms.push(("ts".to_owned(), Json::Str(ts.to_owned())));
        ms.push(("undo".to_owned(), line.undo.copy()));
        ms.push(("v".to_owned(), Json::Unsigned(line.v)));
        let v = Json::Object(ms);
        proof {
            reveal_with_fuel(Json::model, 2);
            assert(v@->Object_0 =~= line@.object(ts@)->Object_0);
            entry_survives(line@, ts@);
            if json::plain(line.args@, 126) && json::plain(line.undo@, 126) {
                reveal_with_fuel(json::plain, 2);
                let o = line@.object(ts@);
                let om = o->Object_0;
                assert(om.len() == 7);
                assert forall|i: int| 0 <= i < om.len() implies json::plain(
                    (#[trigger] om[i]).1,
                    126,
                ) by {}
                assert(json::plain(o, 127));
            }
        }
        json::write_json(&v)
    }

    /// The entries of the readable lines, by number.
    pub fn read_all(lines: &Vec<String>) -> (r: Vec<Entry>)
        ensures
            r.deep_view() == entries_of(lines.deep_view()),
    {
        let ghost ls = lines.deep_view();
        let mut out: Vec<Entry> = Vec::new();
        let mut i: usize = 0;
        proof {
            assert(ls.take(0) =~= Seq::<Text>::empty());
            assert(out.deep_view() =~= Seq::<EntryV>::empty());
        }
        while i < lines.len()
            invariant
                i <= lines.len(),
                ls == lines.deep_view(),
                out.deep_view() == entries_of(ls.take(i as int)),
            decreases lines.len() - i,
        {
            proof {
                assert(ls.take(i + 1).drop_last() =~= ls.take(i as int));
                assert(ls.take(i + 1).last() == lines[i as int]@);
            }
            if let Ok(v) = json::parse_json(&lines[i]) {
                let e = entry_from(&v);
                let ghost w = out.deep_view();
                let mut k: usize = out.len();
                while k > 0 && out[k - 1].seq > e.seq
                    invariant
                        k <= out.len(),
                        w == out.deep_view(),
                        forall|j: int| k <= j < w.len() ==> (#[trigger] w[j]).seq > e.seq,
                    decreases k,
                {
                    assert(w[k - 1] == out[k - 1]@);
                    k -= 1;
                }
                proof {
                    if k > 0 {
                        assert(w[k - 1] == out[k - 1]@);
                    }
                    seq_insert_at(w, e@, k as int);
                }
                let ghost ev = e@;
                out.insert(k, e);
                assert(out.deep_view() =~= w.insert(k as int, ev));
            }
            i += 1;
        }
        proof {
            assert(ls.take(ls.len() as int) =~= ls);
        }
        out
    }

    /// The last `n` entries of the given lines.
    pub fn tail(lines: &Vec<String>, n: usize) -> (r: Vec<Entry>)
        ensures
            r.deep_view() == crate::calls::last_n(entries_of(lines.deep_view()), n as nat),
    {
        let all = Self::read_all(lines);
        let ghost es = all.deep_view();
        let from: usize = if all.len() > n {
            all.len() - n
        } else {
            0
        };
        let mut out: Vec<Entry> = Vec::new();
        let mut i: usize = from;
        while i < all.len()
            invariant
                from <= i <= all.len(),
                out.len() == i - from,
                forall|j: int| 0 <= j < i - from ==> (#[trigger] out[j])@ == all[from + j]@,
            decreases all.len() - i,
        {
            out.push(all[i].copy());
            i += 1;
        }
        assert(out.deep_view() =~= crate::calls::last_n(es, n as nat));
        out
    }
}

/// Every append gets the next number, and never an earlier one again.
pub proof fn numbers_grow(j: JournalV, fiber: Text, kind: Text, args: JsonV, undo: JsonV)
    requires
        j.seq < u64::MAX,
    ensures
        j.append(fiber, kind, args, undo).seq == j.seq + 1,
        j.append(fiber, kind, args, undo).pending.last().seq == j.seq + 1,
{
}

} // verus!
