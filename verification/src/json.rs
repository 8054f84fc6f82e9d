//! JSON values.

use vstd::prelude::*;
use crate::text;
use crate::text::Text;

verus! {

/// A JSON value. Numbers keep the three forms that a parser tells apart:
/// unsigned, negative, and everything else by its spelling.
#[derive(Debug, PartialEq)]
pub enum Json {
    Null,
    Bool(bool),
    Unsigned(u64),
    Negative(i64),
    Decimal(String),
    Str(String),
    Array(Vec<Json>),
    Object(Vec<(String, Json)>),
}

/// A JSON value as the contracts see it.
pub enum JsonV {
    Null,
    Bool(bool),
    Unsigned(u64),
    Negative(i64),
    Decimal(Text),
    Str(Text),
    Array(Seq<JsonV>),
    Object(Seq<(Text, JsonV)>),
}

impl Json {
    pub open spec fn model(self) -> JsonV
        decreases self,
    {
        match self {
            Json::Null => JsonV::Null,
            Json::Bool(b) => JsonV::Bool(b),
            Json::Unsigned(n) => JsonV::Unsigned(n),
            Json::Negative(n) => JsonV::Negative(n),
            Json::Decimal(s) => JsonV::Decimal(s@),
            Json::Str(s) => JsonV::Str(s@),
            Json::Array(v) => JsonV::Array(
                Seq::new(
                    v@.len(),
                    |i: int|
                        if 0 <= i < v@.len() {
                            v@[i].model()
                        } else {
                            JsonV::Null
                        },
                ),
            ),
            Json::Object(v) => JsonV::Object(
                Seq::new(
                    v@.len(),
                    |i: int|
                        if 0 <= i < v@.len() {
                            (v@[i].0@, v@[i].1.model())
                        } else {
                            (Seq::empty(), JsonV::Null)
                        },
                ),
            ),
        }
    }
}

impl View for Json {
    type V = JsonV;

    open spec fn view(&self) -> JsonV {
        self.model()
    }
}

impl DeepView for Json {
    type V = JsonV;

    open spec fn deep_view(&self) -> JsonV {
        self.model()
    }
}

/// The first member called `k`, or -1.
pub open spec fn member_index(ms: Seq<(Text, JsonV)>, k: Text) -> int
    decreases ms.len(),
{
    if ms.len() == 0 {
        -1
    } else {
        let i = member_index(ms.drop_last(), k);
        if i >= 0 {
            i
        } else if ms.last().0 == k {
            ms.len() - 1
        } else {
            -1
        }
    }
}

proof fn member_index_is(ms: Seq<(Text, JsonV)>, k: Text, i: int)
    requires
        0 <= i <= ms.len(),
        forall|j: int| 0 <= j < i ==> (#[trigger] ms[j]).0 != k,
        i < ms.len() ==> ms[i].0 == k,
    ensures
        member_index(ms, k) == if i < ms.len() { i } else { -1 },
    decreases ms.len(),
{
    if ms.len() > 0 {
        if i < ms.len() {
            if i < ms.len() - 1 {
                member_index_is(ms.drop_last(), k, i);
            } else {
                member_index_is(ms.drop_last(), k, ms.len() - 1);
            }
        } else {
            member_index_is(ms.drop_last(), k, ms.len() - 1);
            assert(ms[ms.len() - 1].0 != k);
        }
    }
}

pub proof fn member_index_bound(ms: Seq<(Text, JsonV)>, k: Text)
    ensures
        -1 <= member_index(ms, k) < ms.len(),
        member_index(ms, k) >= 0 ==> ms[member_index(ms, k)].0 == k,
        member_index(ms, k) < 0 ==> forall|j: int| 0 <= j < ms.len() ==> (#[trigger] ms[j]).0 != k,
    decreases ms.len(),
{
    if ms.len() > 0 {
        member_index_bound(ms.drop_last(), k);
        assert forall|j: int| member_index(ms, k) < 0 && 0 <= j < ms.len() implies (
        #[trigger] ms[j]).0 != k by {
            if j < ms.len() - 1 {
                assert(ms.drop_last()[j].0 != k);
            }
        }
    }
}

/// Where a member called `k` belongs: before the trailing members with
/// greater names.
pub open spec fn place(ms: Seq<(Text, JsonV)>, k: Text) -> int
    decreases ms.len(),
{
    if ms.len() > 0 && text::text_lt(k, ms.last().0) {
        place(ms.drop_last(), k)
    } else {
        ms.len() as int
    }
}

proof fn place_is(ms: Seq<(Text, JsonV)>, k: Text, i: int)
    requires
        0 <= i <= ms.len(),
        forall|j: int| i <= j < ms.len() ==> text::text_lt(k, (#[trigger] ms[j]).0),
        i > 0 ==> !text::text_lt(k, ms[i - 1].0),
    ensures
        place(ms, k) == i,
    decreases ms.len(),
{
    if i < ms.len() {
        assert(text::text_lt(k, ms[ms.len() - 1].0));
        place_is(ms.drop_last(), k, i);
    }
}

/// The member names in ascending order, each once.
pub open spec fn ordered_members(ms: Seq<(Text, JsonV)>) -> bool {
    text::ascending(Seq::new(ms.len(), |i: int| ms[i].0))
}

/// A value as it is written: member names ascending, negative numbers
/// negative, no number spelled otherwise, and nested at most `depth` deep.
pub open spec fn plain(v: JsonV, depth: nat) -> bool
    decreases depth,
{
    match v {
        JsonV::Null | JsonV::Bool(_) | JsonV::Unsigned(_) | JsonV::Str(_) => true,
        JsonV::Negative(n) => n < 0,
        JsonV::Decimal(_) => false,
        JsonV::Array(a) => depth > 0 && forall|i: int|
            0 <= i < a.len() ==> plain(#[trigger] a[i], (depth - 1) as nat),
        JsonV::Object(ms) => depth > 0 && ordered_members(ms) && forall|i: int|
            0 <= i < ms.len() ==> plain((#[trigger] ms[i]).1, (depth - 1) as nat),
    }
}

impl JsonV {
    /// The value of the member `k` of an object.
    pub open spec fn get(self, k: Text) -> Option<JsonV> {
        match self {
            JsonV::Object(ms) => {
                let i = member_index(ms, k);
                if i >= 0 {
                    Some(ms[i].1)
                } else {
                    None
                }
            },
            _ => None,
        }
    }

    pub open spec fn str_of(self) -> Option<Text> {
        match self {
            JsonV::Str(s) => Some(s),
            _ => None,
        }
    }

    /// The number, where it is a non-negative integer within 64 bits.
    pub open spec fn u64_of(self) -> Option<u64> {
        match self {
            JsonV::Unsigned(n) => Some(n),
            _ => None,
        }
    }

    /// The number, where it is an integer within the signed 64 bits.
    pub open spec fn i64_of(self) -> Option<i64> {
        match self {
            JsonV::Unsigned(n) => if n <= i64::MAX {
                Some(n as i64)
            } else {
                None
            },
            JsonV::Negative(n) => Some(n),
            _ => None,
        }
    }

    pub open spec fn bool_of(self) -> Option<bool> {
        match self {
            JsonV::Bool(b) => Some(b),
            _ => None,
        }
    }

    pub open spec fn array_of(self) -> Option<Seq<JsonV>> {
        match self {
            JsonV::Array(v) => Some(v),
            _ => None,
        }
    }

    pub open spec fn object_of(self) -> Option<Seq<(Text, JsonV)>> {
        match self {
            JsonV::Object(v) => Some(v),
            _ => None,
        }
    }

    /// The object without members.
    pub open spec fn object() -> JsonV {
        JsonV::Object(Seq::empty())
    }

    /// The object with the member `k` set to `v`.
    pub open spec fn with(self, k: Text, v: JsonV) -> JsonV {
        match self {
            JsonV::Object(ms) => {
                let i = member_index(ms, k);
                if i >= 0 {
                    JsonV::Object(ms.update(i, (k, v)))
                } else {
                    JsonV::Object(ms.insert(place(ms, k), (k, v)))
                }
            },
            _ => self,
        }
    }

    /// The string member `k`, if there is one.
    pub open spec fn str_at(self, k: Text) -> Option<Text> {
        match self.get(k) {
            Some(v) => v.str_of(),
            None => None,
        }
    }

    /// The unsigned member `k`, if there is one.
    pub open spec fn u64_at(self, k: Text) -> Option<u64> {
        match self.get(k) {
            Some(v) => v.u64_of(),
            None => None,
        }
    }

    /// The signed member `k`, if there is one.
    pub open spec fn i64_at(self, k: Text) -> Option<i64> {
        match self.get(k) {
            Some(v) => v.i64_of(),
            None => None,
        }
    }
}

/// An unsigned number.
pub open spec fn jnum(n: u64) -> JsonV {
    JsonV::Unsigned(n)
}

/// A text.
pub open spec fn jstr(s: Text) -> JsonV {
    JsonV::Str(s)
}

/// A text, or null.
pub open spec fn opt_str(s: Option<Text>) -> JsonV {
    match s {
        Some(x) => JsonV::Str(x),
        None => JsonV::Null,
    }
}

/// A list of texts.
pub open spec fn str_list(v: Seq<Text>) -> JsonV {
    JsonV::Array(Seq::new(v.len(), |i: int| JsonV::Str(v[i])))
}

/// A signed number.
pub open spec fn signed(n: i64) -> JsonV {
    if n >= 0 {
        JsonV::Unsigned(n as u64)
    } else {
        JsonV::Negative(n)
    }
}

impl Json {
    /// A copy of the value.
    pub fn copy(&self) -> (r: Json)
        ensures
            r@ == self@,
        decreases self,
    {
        match self {
            Json::Null => Json::Null,
            Json::Bool(b) => Json::Bool(*b),
            Json::Unsigned(n) => Json::Unsigned(*n),
            Json::Negative(n) => Json::Negative(*n),
            Json::Decimal(s) => Json::Decimal(s.clone()),
            Json::Str(s) => Json::Str(s.clone()),
            Json::Array(v) => {
                let mut out: Vec<Json> = Vec::new();
                let mut i: usize = 0;
                while i < v.len()
                    invariant
                        i <= v.len(),
                        out.len() == i,
                        *self matches Json::Array(w) && w == *v,
                        forall|j: int| 0 <= j < i ==> (#[trigger] out[j])@ == v[j]@,
                    decreases v.len() - i,
                {
                    out.push(v[i].copy());
                    i += 1;
                }
                let r = Json::Array(out);
                proof {
                    assert(r@->Array_0 =~= self@->Array_0);
                }
                r
            },
            Json::Object(v) => {
                let mut out: Vec<(String, Json)> = Vec::new();
                let mut i: usize = 0;
                while i < v.len()
                    invariant
                        i <= v.len(),
                        out.len() == i,
                        *self matches Json::Object(w) && w == *v,
                        forall|j: int|
                            0 <= j < i ==> (#[trigger] out[j]).0@ == v[j].0@ && out[j].1@
                                == v[j].1@,
                    decreases v.len() - i,
                {
                    out.push((v[i].0.clone(), v[i].1.copy()));
                    i += 1;
                }
                let r = Json::Object(out);
                proof {
                    assert(r@->Object_0 =~= self@->Object_0);
                }
                r
            },
        }
    }

    /// A string value.
    pub fn str(s: &str) -> (r: Json)
        ensures
            r@ == jstr(s@),
    {
        Json::Str(s.to_owned())
    }

    /// An unsigned number.
    pub fn num(n: u64) -> (r: Json)
        ensures
            r@ == jnum(n),
    {
        Json::Unsigned(n)
    }

    /// A truth value.
    pub fn flag(b: bool) -> (r: Json)
        ensures
            r@ == JsonV::Bool(b),
    {
        Json::Bool(b)
    }

    /// A string value, or null.
    pub fn opt_str(s: &Option<String>) -> (r: Json)
        ensures
            r@ == opt_str(s.deep_view()),
    {
        match s {
            Some(x) => Json::Str(x.clone()),
            None => Json::Null,
        }
    }

    /// A signed number.
    pub fn signed(n: i64) -> (r: Json)
        ensures
            r@ == signed(n),
    {
        if n >= 0 {
            Json::Unsigned(n as u64)
        } else {
            Json::Negative(n)
        }
    }

    /// A list of strings.
    pub fn str_list(v: &Vec<String>) -> (r: Json)
        ensures
            r@ == str_list(v.deep_view()),
    {
        let mut out: Vec<Json> = Vec::new();
        let mut i: usize = 0;
        while i < v.len()
            invariant
                i <= v.len(),
                out.len() == i,
                forall|j: int| 0 <= j < i ==> (#[trigger] out[j])@ == JsonV::Str(v[j]@),
            decreases v.len() - i,
        {
            out.push(Json::Str(v[i].clone()));
            i += 1;
        }
        let r = Json::Array(out);
        proof {
            assert(r@->Array_0 =~= str_list(v.deep_view())->Array_0);
        }
        r
    }

    /// A list of values.
    pub fn list(v: Vec<Json>) -> (r: Json)
        ensures
            r@ == JsonV::Array(v.deep_view()),
    {
        let r = Json::Array(v);
        proof {
            assert(r@->Array_0 =~= v.deep_view());
        }
        r
    }

    /// The object without members.
    pub fn object() -> (r: Json)
        ensures
            r@ == JsonV::object(),
    {
        let r = Json::Object(Vec::new());
        proof {
            assert(r@->Object_0 =~= Seq::<(Text, JsonV)>::empty());
        }
        r
    }

    /// The object with the member `k` set to `v`; any other value unchanged.
    pub fn with(self, k: &str, v: Json) -> (r: Json)
        ensures
            r@ == self@.with(k@, v@),
    {
        match self {
            Json::Object(ms) => {
                let mut ms = ms;
                let ghost old_ms = self@->Object_0;
                let mut i: usize = 0;
                while i < ms.len() && !text::same(&ms[i].0, k)
                    invariant
                        i <= ms.len(),
                        old_ms == Json::Object(ms)@->Object_0,
                        forall|j: int| 0 <= j < i ==> (#[trigger] old_ms[j]).0 != k@,
                    decreases ms.len() - i,
                {
                    i += 1;
                }
                proof {
                    member_index_is(old_ms, k@, i as int);
                }
                if i < ms.len() {
                    ms[i] = (k.to_owned(), v);
                    let r = Json::Object(ms);
                    proof {
                        assert(r@->Object_0 =~= old_ms.update(i as int, (k@, v@)));
                    }
                    r
                } else {
                    let mut p: usize = ms.len();
                    while p > 0 && text::less(k, &ms[p - 1].0)
                        invariant
                            p <= ms.len(),
                            old_ms == Json::Object(ms)@->Object_0,
                            forall|j: int|
                                p <= j < old_ms.len() ==> text::text_lt(
                                    k@,
                                    (#[trigger] old_ms[j]).0,
                                ),
                        decreases p,
                    {
                        assert(old_ms[p - 1].0 == ms[p - 1].0@);
                        p -= 1;
                    }
                    proof {
                        if p > 0 {
                            assert(old_ms[p - 1].0 == ms[p - 1].0@);
                        }
                        place_is(old_ms, k@, p as int);
                    }
                    ms.insert(p, (k.to_owned(), v));
                    let r = Json::Object(ms);
                    proof {
                        assert(r@->Object_0 =~= old_ms.insert(p as int, (k@, v@)));
                    }
                    r
                }
            },
            other => other,
        }
    }

    /// The value of the member `k` of an object.
    pub fn get(&self, k: &str) -> (r: Option<&Json>)
        ensures
            match r {
                Some(v) => self@.get(k@) == Some(v@),
                None => self@.get(k@) is None,
            },
    {
        match self {
            Json::Object(ms) => {
                let ghost gm = self@->Object_0;
                let mut i: usize = 0;
                while i < ms.len() && !text::same(&ms[i].0, k)
                    invariant
                        i <= ms.len(),
                        gm == Json::Object(*ms)@->Object_0,
                        forall|j: int| 0 <= j < i ==> (#[trigger] gm[j]).0 != k@,
                    decreases ms.len() - i,
                {
                    i += 1;
                }
                proof {
                    member_index_is(gm, k@, i as int);
                }
                if i < ms.len() {
                    Some(&ms[i].1)
                } else {
                    None
                }
            },
            _ => None,
        }
    }

    pub fn as_str(&self) -> (r: Option<&String>)
        ensures
            match r {
                Some(s) => self@.str_of() == Some(s@),
                None => self@.str_of() is None,
            },
    {
        match self {
            Json::Str(s) => Some(s),
            _ => None,
        }
    }

    pub fn as_u64(&self) -> (r: Option<u64>)
        ensures
            r == self@.u64_of(),
    {
        match self {
            Json::Unsigned(n) => Some(*n),
            _ => None,
        }
    }

    pub fn as_i64(&self) -> (r: Option<i64>)
        ensures
            r == self@.i64_of(),
    {
        match self {
            Json::Unsigned(n) => if *n <= i64::MAX as u64 {
                Some(*n as i64)
            } else {
                None
            },
            Json::Negative(n) => Some(*n),
            _ => None,
        }
    }

    pub fn as_bool(&self) -> (r: Option<bool>)
        ensures
            r == self@.bool_of(),
    {
        match self {
            Json::Bool(b) => Some(*b),
            _ => None,
        }
    }

    pub fn as_array(&self) -> (r: Option<&Vec<Json>>)
        ensures
            match r {
                Some(v) => self@.array_of() == Some(v.deep_view()),
                None => self@.array_of() is None,
            },
    {
        match self {
            Json::Array(v) => {
                proof {
                    assert(self@->Array_0 =~= v.deep_view());
                }
                Some(v)
            },
            _ => None,
        }
    }

    pub fn as_object(&self) -> (r: Option<&Vec<(String, Json)>>)
        ensures
            match r {
                Some(v) => self@.object_of() == Some(v.deep_view()),
                None => self@.object_of() is None,
            },
    {
        match self {
            Json::Object(v) => {
                proof {
                    assert(self@->Object_0 =~= v.deep_view());
                }
                Some(v)
            },
            _ => None,
        }
    }

    /// The string member `k`, if there is one.
    pub fn str_at(&self, k: &str) -> (r: Option<&String>)
        ensures
            match r {
                Some(s) => self@.str_at(k@) == Some(s@),
                None => self@.str_at(k@) is None,
            },
    {
        match self.get(k) {
            Some(v) => v.as_str(),
            None => None,
        }
    }

    /// The unsigned member `k`, if there is one.
    pub fn u64_at(&self, k: &str) -> (r: Option<u64>)
        ensures
            r == self@.u64_at(k@),
    {
        match self.get(k) {
            Some(v) => v.as_u64(),
            None => None,
        }
    }

    /// The signed member `k`, if there is one.
    pub fn i64_at(&self, k: &str) -> (r: Option<i64>)
        ensures
            r == self@.i64_at(k@),
    {
        match self.get(k) {
            Some(v) => v.as_i64(),
            None => None,
        }
    }
}

/// Setting a member keeps the names ascending.
pub proof fn with_keeps_order(ms: Seq<(Text, JsonV)>, k: Text, v: JsonV)
    requires
        ordered_members(ms),
    ensures
        ordered_members(JsonV::Object(ms).with(k, v)->Object_0),
        JsonV::Object(ms).with(k, v).get(k) == Some(v),
{
    let ks = Seq::new(ms.len(), |i: int| ms[i].0);
    member_index_bound(ms, k);
    let i = member_index(ms, k);
    let w = JsonV::Object(ms).with(k, v)->Object_0;
    let nk = Seq::new(w.len(), |j: int| w[j].0);
    if i >= 0 {
        assert(nk =~= ks);
        assert forall|j: int| 0 <= j < i implies (#[trigger] w[j]).0 != k by {
            assert(text::text_lt(ks[j], ks[i]));
            text::text_lt_asymmetric(ks[j], ks[i]);
        }
        member_index_is(w, k, i);
    } else {
        let p = place(ms, k);
        place_splits(ms, k);
        assert(nk =~= ks.insert(p, k));
        assert forall|a: int, b: int| 0 <= a < b < nk.len() implies text::text_lt(
            #[trigger] nk[a],
            #[trigger] nk[b],
        ) by {
            let pa = if a < p { a } else { a - 1 };
            let pb = if b < p { b } else { b - 1 };
            if a != p && b != p {
                assert(text::text_lt(ks[pa], ks[pb]));
            } else if a == p {
                assert(text::text_lt(k, ms[pb].0));
            } else {
                assert(ms[pa].0 != k);
                text::text_lt_total(ms[pa].0, k);
                if text::text_lt(k, ms[pa].0) && pa < p - 1 {
                    assert(text::text_lt(ks[pa], ks[p - 1]));
                    text::text_lt_transitive(k, ms[pa].0, ms[p - 1].0);
                }
            }
        }
        assert forall|j: int| 0 <= j < p implies (#[trigger] w[j]).0 != k by {
            assert(ms[j].0 != k);
        }
        member_index_is(w, k, p);
    }
}

proof fn place_splits(ms: Seq<(Text, JsonV)>, k: Text)
    ensures
        0 <= place(ms, k) <= ms.len(),
        forall|j: int| place(ms, k) <= j < ms.len() ==> text::text_lt(k, (#[trigger] ms[j]).0),
        place(ms, k) > 0 ==> !text::text_lt(k, ms[place(ms, k) - 1].0),
    decreases ms.len(),
{
    if ms.len() > 0 && text::text_lt(k, ms.last().0) {
        let d = ms.drop_last();
        place_splits(d, k);
        assert forall|j: int| place(ms, k) <= j < ms.len() implies text::text_lt(
            k,
            (#[trigger] ms[j]).0,
        ) by {
            if j < ms.len() - 1 {
                assert(text::text_lt(k, d[j].0));
            }
        }
    }
}

/// With ascending names, each member is found under its name.
pub proof fn member_at(ms: Seq<(Text, JsonV)>, i: int)
    requires
        ordered_members(ms),
        0 <= i < ms.len(),
    ensures
        member_index(ms, ms[i].0) == i,
{
    let ks = Seq::new(ms.len(), |j: int| ms[j].0);
    assert forall|j: int| 0 <= j < i implies (#[trigger] ms[j]).0 != ms[i].0 by {
        assert(text::text_lt(ks[j], ks[i]));
        text::text_lt_asymmetric(ks[j], ks[i]);
    }
    member_index_is(ms, ms[i].0, i);
}

// ---- text form --------------------------------------------------------

/// What `serde_json::from_str` reads from a text: a value, or the message of
/// its error.
pub uninterp spec fn json_parsed(s: Seq<char>) -> Result<JsonV, Seq<char>>;

/// What `serde_json::to_string` writes for a value.
pub uninterp spec fn json_written(v: JsonV) -> Seq<char>;

/// The parsed form of `serde_json`, carried from its reader to `Json` and
/// from `Json` to its writer.
#[verifier::external_type_specification]
#[verifier::external_body]
pub struct ExValue(serde_json::Value);

/// The outcome of reading a text, as the contracts see it.
pub open spec fn reading(r: Result<Json, String>) -> Result<JsonV, Seq<char>> {
    match r {
        Ok(v) => Ok(v@),
        Err(e) => Err(e@),
    }
}

/// Whether reading the text `s` gives `v`.
pub open spec fn reads_as(s: Seq<char>, v: JsonV) -> bool {
    json_parsed(s) matches Ok(w) && w == v
}

/// The parsed value of `serde_json`, form by form; its members come in the
/// ascending order of its map.
#[verifier::external_body]
fn from_value(v: serde_json::Value) -> Json {
    match v {
        serde_json::Value::Null => Json::Null,
        serde_json::Value::Bool(b) => Json::Bool(b),
        serde_json::Value::Number(n) => match (n.as_u64(), n.as_i64()) {
            (Some(u), _) => Json::Unsigned(u),
            (None, Some(i)) => Json::Negative(i),
            (None, None) => Json::Decimal(n.to_string()),
        },
        serde_json::Value::String(s) => Json::Str(s),
        serde_json::Value::Array(a) => Json::Array(a.into_iter().map(from_value).collect()),
        serde_json::Value::Object(m) => Json::Object(
            m.into_iter().map(|(k, x)| (k, from_value(x))).collect(),
        ),
    }
}

/// The value as `serde_json` holds it, form by form.
#[verifier::external_body]
fn to_value(v: &Json) -> serde_json::Value {
    match v {
        Json::Null => serde_json::Value::Null,
        Json::Bool(b) => serde_json::Value::from(*b),
        Json::Unsigned(n) => serde_json::Value::from(*n),
        Json::Negative(n) => serde_json::Value::from(*n),
        Json::Decimal(s) => serde_json::from_str(s).unwrap_or_default(),
        Json::Str(s) => serde_json::Value::from(s.clone()),
        Json::Array(a) => a.iter().map(to_value).collect(),
        Json::Object(m) => m.iter().map(|e| (e.0.clone(), to_value(&e.1))).collect(),
    }
}

/// `serde_json::from_str` on a text: the value or the error's message is a
/// function of the text alone, called `json_parsed` here.
#[verifier::external_body]
pub(crate) fn parse_json(s: &str) -> (r: Result<Json, String>)
    ensures
        reading(r) == json_parsed(s@),
{
    match serde_json::from_str::<serde_json::Value>(s) {
        Ok(v) => Ok(from_value(v)),
        Err(e) => Err(e.to_string()),
    }
}

/// `serde_json::to_string` on a value: the text is a function of the value
/// alone, called `json_written` here. A plain value nested at most 127 deep
/// is read back from it; deeper ones exceed the reader's limit, numbers with
/// a fraction may change their spelling, and unordered members are reordered.
#[verifier::external_body]
pub(crate) fn write_json(v: &Json) -> (r: String)
    ensures
        r@ == json_written(v@),
        plain(v@, 127) ==> reads_as(r@, v@),
{
    serde_json::to_string(&to_value(v)).unwrap_or_default()
}

impl Json {
    /// Reads a text, or tells what is wrong with it.
    pub fn read(s: &str) -> (r: Result<Json, String>)
        ensures
            reading(r) == json_parsed(s@),
    {
        parse_json(s)
    }

    /// The value as a text. A plain one nested at most 127 deep is read back
    /// from it.
    pub fn text(&self) -> (r: String)
        ensures
            r@ == json_written(self@),
            plain(self@, 127) ==> reads_as(r@, self@),
    {
        write_json(self)
    }
}

} // verus!
