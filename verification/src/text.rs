//! Strings as sequences of Unicode scalar values: comparison, decimal
//! notation, trimming and substitution.

use vstd::prelude::*;
use vstd::string::*;

verus! {

broadcast use vstd::string::group_string_axioms;

/// A text as the contracts see it.
pub type Text = Seq<char>;

// ---- characters -------------------------------------------------------

/// The characters of `s`, in order.
pub fn chars_of(s: &str) -> (r: Vec<char>)
    ensures
        r@ == s@,
{
    let mut r: Vec<char> = Vec::new();
    for c in it: s.chars()
        invariant
            it.seq() == s@,
            r@ == s@.take(it.index() as int),
    {
        r.push(c);
        proof {
            assert(s@.take(it.index() as int + 1) =~= s@.take(it.index() as int).push(c));
        }
    }
    proof {
        assert(s@.take(s@.len() as int) =~= s@);
    }
    r
}

/// Whether two texts hold the same characters.
pub fn same(a: &str, b: &str) -> (r: bool)
    ensures
        r == (a@ == b@),
{
    a.to_owned() == b.to_owned()
}

/// A text of the same characters.
pub fn owned(s: &str) -> (r: String)
    ensures
        r@ == s@,
{
    s.to_owned()
}

/// `a` followed by `b`.
pub fn join2(a: &str, b: &str) -> (r: String)
    ensures
        r@ == a@ + b@,
{
    let mut r = a.to_owned();
    r.append(b);
    r
}

/// A copy of an optional text.
pub fn copy_opt(s: &Option<String>) -> (r: Option<String>)
    ensures
        r.deep_view() == s.deep_view(),
{
    match s {
        Some(x) => Some(x.clone()),
        None => None,
    }
}

/// A copy of a list of texts.
pub fn copy_texts(v: &Vec<String>) -> (r: Vec<String>)
    ensures
        r.deep_view() == v.deep_view(),
{
    let mut r: Vec<String> = Vec::new();
    let mut i: usize = 0;
    while i < v.len()
        invariant
            i <= v.len(),
            r.len() == i,
            forall|j: int| 0 <= j < i ==> r[j]@ == v[j]@,
        decreases v.len() - i,
    {
        r.push(v[i].clone());
        i += 1;
    }
    r
}

/// Whether `s` is one of the texts of `v`.
pub fn contains_text(v: &Vec<String>, s: &str) -> (r: bool)
    ensures
        r == v.deep_view().contains(s@),
{
    let mut i: usize = 0;
    while i < v.len()
        invariant
            i <= v.len(),
            forall|j: int| 0 <= j < i ==> v.deep_view()[j] != s@,
        decreases v.len() - i,
    {
        if same(&v[i], s) {
            assert(v.deep_view()[i as int] == s@);
            return true;
        }
        i += 1;
    }
    false
}

// ---- order ------------------------------------------------------------

/// Strict lexicographic order by scalar value (the order of `str`).
pub open spec fn text_lt(a: Text, b: Text) -> bool
    decreases a.len(),
{
    if b.len() == 0 {
        false
    } else if a.len() == 0 {
        true
    } else if a[0] == b[0] {
        text_lt(a.drop_first(), b.drop_first())
    } else {
        a[0] < b[0]
    }
}

pub proof fn text_lt_irreflexive(a: Text)
    ensures
        !text_lt(a, a),
    decreases a.len(),
{
    if a.len() > 0 {
        text_lt_irreflexive(a.drop_first());
    }
}

pub proof fn text_lt_transitive(a: Text, b: Text, c: Text)
    requires
        text_lt(a, b),
        text_lt(b, c),
    ensures
        text_lt(a, c),
    decreases a.len(),
{
    if a.len() > 0 && b.len() > 0 && c.len() > 0 {
        if a[0] == b[0] && b[0] == c[0] {
            text_lt_transitive(a.drop_first(), b.drop_first(), c.drop_first());
        }
    }
}

pub proof fn text_lt_total(a: Text, b: Text)
    ensures
        a == b || text_lt(a, b) || text_lt(b, a),
    decreases a.len(),
{
    if a.len() == 0 {
        if b.len() == 0 {
            assert(a =~= b);
        }
    } else if b.len() > 0 && a[0] == b[0] {
        text_lt_total(a.drop_first(), b.drop_first());
        if a.drop_first() == b.drop_first() {
            assert(a =~= seq![a[0]] + a.drop_first());
            assert(b =~= seq![b[0]] + b.drop_first());
        }
    }
}

pub proof fn text_lt_asymmetric(a: Text, b: Text)
    requires
        text_lt(a, b),
    ensures
        !text_lt(b, a),
        a != b,
{
    text_lt_irreflexive(a);
    if text_lt(b, a) {
        text_lt_transitive(a, b, a);
    }
}

proof fn text_lt_at(a: Text, b: Text, i: int)
    requires
        0 <= i <= a.len(),
        i <= b.len(),
        a.take(i) == b.take(i),
    ensures
        text_lt(a, b) == text_lt(a.skip(i), b.skip(i)),
    decreases i,
{
    if i == 0 {
        assert(a.skip(0) =~= a);
        assert(b.skip(0) =~= b);
    } else {
        assert(a[0] == a.take(i)[0]);
        assert(b[0] == b.take(i)[0]);
        assert(a.drop_first().take(i - 1) =~= a.take(i).drop_first());
        assert(b.drop_first().take(i - 1) =~= b.take(i).drop_first());
        text_lt_at(a.drop_first(), b.drop_first(), i - 1);
        assert(a.drop_first().skip(i - 1) =~= a.skip(i));
        assert(b.drop_first().skip(i - 1) =~= b.skip(i));
    }
}

/// Whether `a` comes strictly before `b`.
pub fn less(a: &str, b: &str) -> (r: bool)
    ensures
        r == text_lt(a@, b@),
{
    let x = chars_of(a);
    let y = chars_of(b);
    let mut i: usize = 0;
    while i < x.len() && i < y.len() && x[i] == y[i]
        invariant
            i <= x.len(),
            i <= y.len(),
            x@.take(i as int) == y@.take(i as int),
        decreases x.len() - i,
    {
        proof {
            assert(x@.take(i + 1) =~= x@.take(i as int).push(x[i as int]));
            assert(y@.take(i + 1) =~= y@.take(i as int).push(y[i as int]));
        }
        i += 1;
    }
    proof {
        text_lt_at(x@, y@, i as int);
    }
    if i >= y.len() {
        false
    } else if i >= x.len() {
        true
    } else {
        proof {
            assert(x@.skip(i as int)[0] == x[i as int]);
            assert(y@.skip(i as int)[0] == y[i as int]);
        }
        x[i] < y[i]
    }
}

/// Strictly ascending, hence without repetition.
pub open spec fn ascending(v: Seq<Text>) -> bool {
    forall|i: int, j: int| 0 <= i < j < v.len() ==> text_lt(#[trigger] v[i], #[trigger] v[j])
}

/// An ascending list is determined by the set of its members.
pub proof fn ascending_unique(a: Seq<Text>, b: Seq<Text>)
    requires
        ascending(a),
        ascending(b),
        a.to_set() == b.to_set(),
    ensures
        a == b,
    decreases a.len(),
{
    if a.len() == 0 {
        if b.len() > 0 {
            assert(b.to_set().contains(b[0]));
            assert(a.to_set().contains(b[0]));
        }
        assert(a =~= b);
    } else {
        assert(a.to_set().contains(a[0]));
        assert(b.to_set().contains(a[0]));
        let j = choose|j: int| 0 <= j < b.len() && b[j] == a[0];
        assert(b.len() > 0);
        assert(b.to_set().contains(b[0]));
        assert(a.to_set().contains(b[0]));
        let i = choose|i: int| 0 <= i < a.len() && a[i] == b[0];
        if i > 0 && j > 0 {
            text_lt_asymmetric(a[0], a[i]);
            text_lt_asymmetric(b[0], b[j]);
        }
        assert(a[0] == b[0]);
        let ra = a.drop_first();
        let rb = b.drop_first();
        assert forall|x: Text| ra.to_set().contains(x) == rb.to_set().contains(x) by {
            if ra.to_set().contains(x) {
                let p = choose|p: int| 0 <= p < ra.len() && ra[p] == x;
                assert(a[p + 1] == x);
                text_lt_asymmetric(a[0], a[p + 1]);
                assert(a.to_set().contains(x));
                assert(b.to_set().contains(x));
                let q = choose|q: int| 0 <= q < b.len() && b[q] == x;
                assert(q > 0);
                assert(rb[q - 1] == x);
            }
            if rb.to_set().contains(x) {
                let p = choose|p: int| 0 <= p < rb.len() && rb[p] == x;
                assert(b[p + 1] == x);
                text_lt_asymmetric(b[0], b[p + 1]);
                assert(b.to_set().contains(x));
                assert(a.to_set().contains(x));
                let q = choose|q: int| 0 <= q < a.len() && a[q] == x;
                assert(q > 0);
                assert(ra[q - 1] == x);
            }
        }
        assert(ra.to_set() =~= rb.to_set());
        assert(ascending(ra)) by {
            assert forall|i: int, j: int| 0 <= i < j < ra.len() implies text_lt(
                #[trigger] ra[i],
                #[trigger] ra[j],
            ) by {
                assert(text_lt(a[i + 1], a[j + 1]));
            }
        }
        assert(ascending(rb)) by {
            assert forall|i: int, j: int| 0 <= i < j < rb.len() implies text_lt(
                #[trigger] rb[i],
                #[trigger] rb[j],
            ) by {
                assert(text_lt(b[i + 1], b[j + 1]));
            }
        }
        ascending_unique(ra, rb);
        assert(a =~= seq![a[0]] + ra);
        assert(b =~= seq![b[0]] + rb);
    }
}

/// The members of a finite set of texts in ascending order.
pub open spec fn in_order(s: Set<Text>) -> Seq<Text> {
    choose|v: Seq<Text>| ascending(v) && v.to_set() == s
}

/// Any ascending list of exactly the members of `s` is `in_order(s)`.
pub proof fn in_order_is(s: Set<Text>, v: Seq<Text>)
    requires
        ascending(v),
        v.to_set() == s,
    ensures
        in_order(s) == v,
{
    let w = in_order(s);
    assert(ascending(w) && w.to_set() == s);
    ascending_unique(v, w);
}

/// Where `p` stands in an ascending list with `x` added.
proof fn ascending_with(v: Seq<Text>, x: Text) -> (w: Seq<Text>)
    requires
        ascending(v),
        !v.contains(x),
    ensures
        ascending(w),
        w.to_set() == v.to_set().insert(x),
    decreases v.len(),
{
    if v.len() == 0 {
        let w = seq![x];
        assert(w[0] == x);
        assert(w.to_set() =~= v.to_set().insert(x));
        w
    } else {
        let l = v.last();
        text_lt_total(l, x);
        assert(v.contains(l));
        if text_lt(l, x) {
            let w = v.push(x);
            assert forall|i: int, j: int| 0 <= i < j < w.len() implies text_lt(
                #[trigger] w[i],
                #[trigger] w[j],
            ) by {
                if j == v.len() && i < v.len() - 1 {
                    text_lt_transitive(v[i], l, x);
                }
            }
            assert forall|y: Text| w.to_set().contains(y) == v.to_set().insert(x).contains(y) by {
                if v.to_set().contains(y) {
                    let k = choose|k: int| 0 <= k < v.len() && v[k] == y;
                    assert(w[k] == y);
                }
                assert(w[v.len() as int] == x);
            }
            assert(w.to_set() =~= v.to_set().insert(x));
            w
        } else {
            let u = ascending_with(v.drop_last(), x);
            let w = u.push(l);
            assert forall|i: int, j: int| 0 <= i < j < w.len() implies text_lt(
                #[trigger] w[i],
                #[trigger] w[j],
            ) by {
                if j == u.len() {
                    assert(u.to_set().contains(u[i]));
                    if u[i] != x {
                        assert(v.drop_last().to_set().contains(u[i]));
                        let k = choose|k: int| 0 <= k < v.len() - 1 && v.drop_last()[k] == u[i];
                        assert(text_lt(v[k], v[v.len() - 1]));
                    }
                }
            }
            assert forall|y: Text| w.to_set().contains(y) == v.to_set().insert(x).contains(y) by {
                if v.to_set().contains(y) {
                    let k = choose|k: int| 0 <= k < v.len() && v[k] == y;
                    if k < v.len() - 1 {
                        assert(v.drop_last()[k] == y);
                        assert(u.to_set().contains(y));
                    }
                }
                if u.to_set().contains(y) {
                    let k = choose|k: int| 0 <= k < u.len() && u[k] == y;
                    assert(w[k] == y);
                    if y != x {
                        assert(v.drop_last().to_set().contains(y));
                        let m = choose|m: int| 0 <= m < v.len() - 1 && v.drop_last()[m] == y;
                        assert(v[m] == y);
                    }
                }
                assert(u.to_set().contains(x));
                assert(w[u.len() as int] == l);
            }
            assert(w.to_set() =~= v.to_set().insert(x));
            w
        }
    }
}

proof fn ascending_exists(s: Set<Text>) -> (v: Seq<Text>)
    requires
        s.finite(),
    ensures
        ascending(v),
        v.to_set() == s,
    decreases s.len(),
{
    if s.len() == 0 {
        let v = Seq::<Text>::empty();
        assert(v.to_set() =~= s);
        v
    } else {
        let x = s.choose();
        let v = ascending_exists(s.remove(x));
        assert(!v.contains(x)) by {
            if v.contains(x) {
                assert(v.to_set().contains(x));
            }
        }
        let w = ascending_with(v, x);
        assert(w.to_set() =~= s);
        w
    }
}

/// A finite set of texts has an ascending order.
pub proof fn in_order_sorted(s: Set<Text>)
    requires
        s.finite(),
    ensures
        ascending(in_order(s)),
        in_order(s).to_set() == s,
        in_order(s).no_duplicates(),
        in_order(s).len() == s.len(),
{
    let v = ascending_exists(s);
    let w = in_order(s);
    assert(ascending(w) && w.to_set() == s);
    assert forall|i: int, j: int| 0 <= i < w.len() && 0 <= j < w.len() && i != j implies w[i]
        != w[j] by {
        if i < j {
            text_lt_asymmetric(w[i], w[j]);
        } else {
            text_lt_asymmetric(w[j], w[i]);
        }
    }
    w.unique_seq_to_set();
}

/// One more element of a list in the set of its first elements.
pub proof fn take_grows(s: Seq<Text>, i: int)
    requires
        0 <= i < s.len(),
    ensures
        forall|x: Text| #[trigger]
            s.take(i + 1).to_set().contains(x) <==> (s.take(i).to_set().contains(x) || x == s[i]),
{
    let a = s.take(i);
    let b = s.take(i + 1);
    assert forall|x: Text| #[trigger] b.to_set().contains(x) <==> (a.to_set().contains(x) || x
        == s[i]) by {
        if a.to_set().contains(x) {
            let k = choose|k: int| 0 <= k < a.len() && a[k] == x;
            assert(b[k] == x);
        }
        if b.to_set().contains(x) {
            let k = choose|k: int| 0 <= k < b.len() && b[k] == x;
            if k < i {
                assert(a[k] == x);
            }
        }
        assert(b[i] == s[i]);
    }
}

// ---- decimal notation -------------------------------------------------

/// The digit of a value below ten.
pub open spec fn digit(n: nat) -> char {
    if n == 0 {
        '0'
    } else if n == 1 {
        '1'
    } else if n == 2 {
        '2'
    } else if n == 3 {
        '3'
    } else if n == 4 {
        '4'
    } else if n == 5 {
        '5'
    } else if n == 6 {
        '6'
    } else if n == 7 {
        '7'
    } else if n == 8 {
        '8'
    } else {
        '9'
    }
}

/// `n` in decimal, without leading zeros.
pub open spec fn dec(n: nat) -> Text
    decreases n,
{
    if n < 10 {
        seq![digit(n)]
    } else {
        dec(n / 10).push(digit(n % 10))
    }
}

fn digit_str(n: u64) -> (r: &'static str)
    requires
        n < 10,
    ensures
        r@ == seq![digit(n as nat)],
{
    proof {
        reveal_strlit("0");
        reveal_strlit("1");
        reveal_strlit("2");
        reveal_strlit("3");
        reveal_strlit("4");
        reveal_strlit("5");
        reveal_strlit("6");
        reveal_strlit("7");
        reveal_strlit("8");
        reveal_strlit("9");
    }
    let r = if n == 0 {
        "0"
    } else if n == 1 {
        "1"
    } else if n == 2 {
        "2"
    } else if n == 3 {
        "3"
    } else if n == 4 {
        "4"
    } else if n == 5 {
        "5"
    } else if n == 6 {
        "6"
    } else if n == 7 {
        "7"
    } else if n == 8 {
        "8"
    } else {
        "9"
    };
    assert(r@ =~= seq![digit(n as nat)]);
    r
}

/// `n` in decimal.
pub fn dec_text(n: u64) -> (r: String)
    ensures
        r@ == dec(n as nat),
    decreases n,
{
    if n < 10 {
        digit_str(n).to_owned()
    } else {
        let mut r = dec_text(n / 10);
        r.append(digit_str(n % 10));
        assert(r@ =~= dec(n as nat));
        r
    }
}

/// `p` followed by `n` in decimal.
pub fn numbered(p: &str, n: u64) -> (r: String)
    ensures
        r@ == p@ + dec(n as nat),
{
    let d = dec_text(n);
    join2(p, &d)
}

/// The value of a decimal digit.
pub open spec fn digit_value(c: char) -> Option<nat> {
    if '0' <= c <= '9' {
        Some((c as nat - '0' as nat) as nat)
    } else {
        None
    }
}

/// The value of a run of decimal digits, if it is one (the empty run is 0).
pub open spec fn digits_value(s: Text) -> Option<nat>
    decreases s.len(),
{
    if s.len() == 0 {
        Some(0)
    } else {
        match (digits_value(s.drop_last()), digit_value(s.last())) {
            (Some(h), Some(d)) => Some(h * 10 + d),
            _ => None,
        }
    }
}

/// The unsigned number that `s` spells: an optional `+`, then at least one
/// decimal digit and nothing else, within 64 bits.
pub open spec fn parsed_u64(s: Text) -> Option<u64> {
    let d = if s.len() > 0 && s[0] == '+' {
        s.drop_first()
    } else {
        s
    };
    if d.len() == 0 {
        None
    } else {
        match digits_value(d) {
            Some(n) if n <= u64::MAX => Some(n as u64),
            _ => None,
        }
    }
}

proof fn digits_value_prefix(s: Text, i: int)
    requires
        0 <= i <= s.len(),
        digits_value(s.take(i)) is None || digits_value(s.take(i))->0 > u64::MAX,
    ensures
        digits_value(s) is None || digits_value(s)->0 > u64::MAX,
    decreases s.len() - i,
{
    if i < s.len() {
        assert(s.take(i + 1).drop_last() =~= s.take(i));
        digits_value_prefix(s, i + 1);
    } else {
        assert(s.take(i) =~= s);
    }
}

/// Reads an unsigned decimal number.
pub fn parse_u64(s: &str) -> (r: Option<u64>)
    ensures
        r == parsed_u64(s@),
{
    let v = chars_of(s);
    let mut start: usize = 0;
    if v.len() > 0 && v[0] == '+' {
        start = 1;
    }
    let ghost d = v@.skip(start as int);
    proof {
        if start == 1 {
            assert(d =~= s@.drop_first());
        } else {
            assert(d =~= s@);
        }
    }
    if start == v.len() {
        return None;
    }
    let mut acc: u64 = 0;
    let mut i: usize = start;
    proof {
        assert(d.take(0) =~= Seq::<char>::empty());
    }
    while i < v.len()
        invariant
            start <= i <= v.len(),
            start < v.len(),
            d == v@.skip(start as int),
            parsed_u64(s@) == (match digits_value(d) {
                Some(n) if n <= u64::MAX => Some(n as u64),
                _ => None,
            }),
            digits_value(d.take(i - start)) == Some(acc as nat),
        decreases v.len() - i,
    {
        let c = v[i];
        proof {
            assert(d.take(i - start + 1).drop_last() =~= d.take(i - start));
            assert(d.take(i - start + 1).last() == c);
        }
        if !('0' <= c && c <= '9') {
            proof {
                digits_value_prefix(d, i - start + 1);
            }
            return None;
        }
        let n: u64 = c as u64 - '0' as u64;
        if acc > u64::MAX / 10 || acc * 10 > u64::MAX - n {
            proof {
                digits_value_prefix(d, i - start + 1);
            }
            return None;
        }
        acc = acc * 10 + n;
        i += 1;
    }
    proof {
        assert(d.take(d.len() as int) =~= d);
    }
    Some(acc)
}

proof fn dec_digits(n: nat)
    ensures
        digits_value(dec(n)) == Some(n),
        dec(n).len() > 0,
        forall|i: int| 0 <= i < dec(n).len() ==> '0' <= #[trigger] dec(n)[i] <= '9',
    decreases n,
{
    reveal_with_fuel(digits_value, 2);
    if n < 10 {
        assert(dec(n).drop_last() =~= Seq::<char>::empty());
    } else {
        dec_digits(n / 10);
        assert(dec(n).drop_last() =~= dec(n / 10));
    }
}

/// Reading the decimal notation of a number gives the number back.
pub proof fn parse_of_dec(n: u64)
    ensures
        parsed_u64(dec(n as nat)) == Some(n),
        forall|i: int|
            0 <= i < dec(n as nat).len() ==> '0' <= #[trigger] dec(n as nat)[i] <= '9',
        dec(n as nat).len() > 0,
{
    dec_digits(n as nat);
    assert('0' <= dec(n as nat)[0] <= '9');
}

/// Decimal notation tells numbers apart.
pub proof fn dec_injective(a: nat, b: nat)
    requires
        dec(a) == dec(b),
    ensures
        a == b,
{
    dec_digits(a);
    dec_digits(b);
}

// ---- trimming and searching -------------------------------------------

/// Unicode White_Space.
pub open spec fn is_white(c: char) -> bool {
    ||| '\u{9}' <= c <= '\u{d}'
    ||| c == ' '
    ||| c == '\u{85}'
    ||| c == '\u{a0}'
    ||| c == '\u{1680}'
    ||| '\u{2000}' <= c <= '\u{200a}'
    ||| c == '\u{2028}'
    ||| c == '\u{2029}'
    ||| c == '\u{202f}'
    ||| c == '\u{205f}'
    ||| c == '\u{3000}'
}

fn white(c: char) -> (r: bool)
    ensures
        r == is_white(c),
{
    ('\u{9}' <= c && c <= '\u{d}') || c == ' ' || c == '\u{85}' || c == '\u{a0}' || c == '\u{1680}'
        || ('\u{2000}' <= c && c <= '\u{200a}') || c == '\u{2028}' || c == '\u{2029}'
        || c == '\u{202f}' || c == '\u{205f}' || c == '\u{3000}'
}

/// `s` without leading white space.
pub open spec fn trimmed_start(s: Text) -> Text
    decreases s.len(),
{
    if s.len() > 0 && is_white(s[0]) {
        trimmed_start(s.drop_first())
    } else {
        s
    }
}

/// `s` without trailing white space.
pub open spec fn trimmed_end(s: Text) -> Text
    decreases s.len(),
{
    if s.len() > 0 && is_white(s.last()) {
        trimmed_end(s.drop_last())
    } else {
        s
    }
}

/// `s` without leading and trailing white space.
pub open spec fn trimmed(s: Text) -> Text {
    trimmed_end(trimmed_start(s))
}

/// A text without white space at its ends is its own trimming.
pub proof fn trimmed_fixed(s: Text)
    requires
        s.len() > 0 ==> !is_white(s[0]) && !is_white(s.last()),
    ensures
        trimmed(s) == s,
{
}

proof fn trimmed_start_skips(s: Text, i: int)
    requires
        0 <= i <= s.len(),
        forall|j: int| 0 <= j < i ==> is_white(#[trigger] s[j]),
    ensures
        trimmed_start(s) == trimmed_start(s.skip(i)),
    decreases i,
{
    if i == 0 {
        assert(s.skip(0) =~= s);
    } else {
        assert(is_white(s[0]));
        assert forall|j: int| 0 <= j < i - 1 implies is_white(#[trigger] s.drop_first()[j]) by {
            assert(is_white(s[j + 1]));
        }
        trimmed_start_skips(s.drop_first(), i - 1);
        assert(s.drop_first().skip(i - 1) =~= s.skip(i));
    }
}

proof fn trimmed_end_drops(s: Text, i: int)
    requires
        0 <= i <= s.len(),
        forall|j: int| i <= j < s.len() ==> is_white(#[trigger] s[j]),
    ensures
        trimmed_end(s) == trimmed_end(s.take(i)),
    decreases s.len() - i,
{
    if i == s.len() {
        assert(s.take(i) =~= s);
    } else {
        assert(is_white(s[s.len() - 1]));
        assert forall|j: int| i <= j < s.len() - 1 implies is_white(
            #[trigger] s.drop_last()[j],
        ) by {
            assert(is_white(s[j]));
        }
        trimmed_end_drops(s.drop_last(), i);
        assert(s.drop_last().take(i) =~= s.take(i));
    }
}

/// `s` without leading and trailing white space.
pub fn trim(s: &str) -> (r: String)
    ensures
        r@ == trimmed(s@),
{
    let v = chars_of(s);
    let mut i: usize = 0;
    while i < v.len() && white(v[i])
        invariant
            i <= v.len(),
            forall|j: int| 0 <= j < i ==> is_white(#[trigger] v@[j]),
        decreases v.len() - i,
    {
        i += 1;
    }
    let mut k: usize = v.len();
    while k > i && white(v[k - 1])
        invariant
            i <= k <= v.len(),
            forall|j: int| k <= j < v.len() ==> is_white(#[trigger] v@[j]),
        decreases k,
    {
        k -= 1;
    }
    proof {
        trimmed_start_skips(v@, i as int);
        let t = v@.skip(i as int);
        assert(trimmed_start(v@) == t);
        assert forall|j: int| k - i <= j < t.len() implies is_white(#[trigger] t[j]) by {
            assert(is_white(v@[j + i]));
        }
        trimmed_end_drops(t, k - i);
        assert(t.take(k - i) =~= v@.subrange(i as int, k as int));
        if k > i {
            assert(t.take(k - i).last() == v@[k - 1]);
        }
    }
    s.substring_char(i, k).to_owned()
}

/// Whether nothing but white space is in `s`.
pub fn blank(s: &str) -> (r: bool)
    ensures
        r == (trimmed(s@).len() == 0),
{
    trim(s).as_str().is_empty()
}

/// The last position of `c` in `s`, or -1.
pub open spec fn last_index(s: Text, c: char) -> int
    decreases s.len(),
{
    if s.len() == 0 {
        -1
    } else if s.last() == c {
        s.len() - 1
    } else {
        last_index(s.drop_last(), c)
    }
}

pub proof fn last_index_is(s: Text, c: char, i: int)
    requires
        -1 <= i < s.len(),
        i >= 0 ==> s[i] == c,
        forall|j: int| i < j < s.len() ==> #[trigger] s[j] != c,
    ensures
        last_index(s, c) == i,
    decreases s.len(),
{
    if s.len() > 0 && i < s.len() - 1 {
        assert(s[s.len() - 1] != c);
        last_index_is(s.drop_last(), c, i);
    }
}

/// The last position of `c` in `v`.
pub fn rfind(v: &Vec<char>, c: char) -> (r: Option<usize>)
    ensures
        match r {
            Some(i) => i < v.len() && last_index(v@, c) == i,
            None => last_index(v@, c) == -1,
        },
{
    let mut i: usize = v.len();
    while i > 0
        invariant
            i <= v.len(),
            forall|j: int| i <= j < v.len() ==> #[trigger] v@[j] != c,
        decreases i,
    {
        if v[i - 1] == c {
            proof {
                last_index_is(v@, c, i - 1);
            }
            return Some(i - 1);
        }
        i -= 1;
    }
    proof {
        last_index_is(v@, c, -1);
    }
    None
}

/// Whether `s` begins with `p`.
pub fn starts_with(s: &str, p: &str) -> (r: bool)
    ensures
        r == p@.is_prefix_of(s@),
{
    let n = p.unicode_len();
    if n > s.unicode_len() {
        return false;
    }
    proof {
        assert(s@.subrange(0, n as int) =~= s@.take(n as int));
    }
    same(s.substring_char(0, n), p)
}

// ---- building ---------------------------------------------------------

/// The texts of `v` with `sep` between them.
pub open spec fn joined(v: Seq<Text>, sep: Text) -> Text
    decreases v.len(),
{
    if v.len() == 0 {
        Seq::empty()
    } else if v.len() == 1 {
        v[0]
    } else {
        joined(v.drop_last(), sep) + sep + v.last()
    }
}

/// The texts of `v` with `sep` between them.
pub fn join(v: &Vec<String>, sep: &str) -> (r: String)
    ensures
        r@ == joined(v.deep_view(), sep@),
{
    let mut r = String::new();
    let mut i: usize = 0;
    proof {
        assert(v.deep_view().take(0) =~= Seq::<Text>::empty());
    }
    while i < v.len()
        invariant
            i <= v.len(),
            r@ == joined(v.deep_view().take(i as int), sep@),
        decreases v.len() - i,
    {
        if i > 0 {
            r.append(sep);
        }
        r.append(&v[i]);
        proof {
            let t = v.deep_view().take(i + 1);
            assert(t.drop_last() =~= v.deep_view().take(i as int));
            assert(t.last() == v[i as int]@);
            if i == 0 {
                assert(r@ =~= v[0]@);
                assert(t[0] == v[0]@);
            }
        }
        i += 1;
    }
    proof {
        assert(v.deep_view().take(v.len() as int) =~= v.deep_view());
    }
    r
}

/// A list of numbers as `[1, 2, 3]`.
pub open spec fn listed(v: Seq<u64>) -> Text {
    "["@ + joined(Seq::new(v.len(), |i: int| dec(v[i] as nat)), ", "@) + "]"@
}

/// A list of numbers as `[1, 2, 3]`.
pub fn list_text(v: &Vec<u64>) -> (r: String)
    ensures
        r@ == listed(v@),
{
    let mut parts: Vec<String> = Vec::new();
    let mut i: usize = 0;
    while i < v.len()
        invariant
            i <= v.len(),
            parts.len() == i,
            forall|j: int| 0 <= j < i ==> parts[j]@ == dec(v[j] as nat),
        decreases v.len() - i,
    {
        parts.push(dec_text(v[i]));
        i += 1;
    }
    proof {
        assert(parts.deep_view() =~= Seq::new(v@.len(), |i: int| dec(v@[i] as nat)));
    }
    let mid = join(&parts, ", ");
    let mut r = join2("[", &mid);
    r.append("]");
    r
}

/// `s` with every occurrence of `pat`, taken from the left without overlap,
/// replaced by `by`.
pub open spec fn replaced(s: Text, pat: Text, by: Text) -> Text
    recommends
        pat.len() > 0,
    decreases s.len(),
{
    if pat.len() == 0 || s.len() < pat.len() {
        s
    } else if s.take(pat.len() as int) == pat {
        by + replaced(s.skip(pat.len() as int), pat, by)
    } else {
        seq![s[0]] + replaced(s.drop_first(), pat, by)
    }
}

/// `s` with every occurrence of `pat`, taken from the left without overlap,
/// replaced by `by`.
pub fn replace(s: &str, pat: &str, by: &str) -> (r: String)
    requires
        pat@.len() > 0,
    ensures
        r@ == replaced(s@, pat@, by@),
{
    let n = s.unicode_len();
    let m = pat.unicode_len();
    let mut r = String::new();
    let mut i: usize = 0;
    proof {
        assert(s@.skip(0) =~= s@);
        assert(r@ + replaced(s@, pat@, by@) =~= replaced(s@, pat@, by@));
    }
    while i < n && m <= n - i
        invariant
            i <= n,
            n == s@.len(),
            m == pat@.len(),
            m > 0,
            r@ + replaced(s@.skip(i as int), pat@, by@) == replaced(s@, pat@, by@),
        decreases n - i,
    {
        let ghost rest = s@.skip(i as int);
        let ghost before = r@;
        let hit = same(s.substring_char(i, i + m), pat);
        proof {
            assert(rest.take(m as int) =~= s@.subrange(i as int, i + m));
        }
        if hit {
            r.append(by);
            proof {
                assert(rest.skip(m as int) =~= s@.skip(i + m));
                assert(before + (by@ + replaced(s@.skip(i + m), pat@, by@)) =~= r@ + replaced(
                    s@.skip(i + m),
                    pat@,
                    by@,
                ));
            }
            i += m;
        } else {
            r.append(s.substring_char(i, i + 1));
            proof {
                assert(rest.drop_first() =~= s@.skip(i + 1));
                assert(s@.subrange(i as int, i + 1) =~= seq![rest[0]]);
                assert(before + (seq![rest[0]] + replaced(s@.skip(i + 1), pat@, by@)) =~= r@
                    + replaced(s@.skip(i + 1), pat@, by@));
            }
            i += 1;
        }
    }
    proof {
        assert(s@.subrange(i as int, n as int) =~= s@.skip(i as int));
    }
    r.append(s.substring_char(i, n));
    r
}

/// ASCII lower case of a character.
pub open spec fn lower_char(c: char) -> char {
    if 'A' <= c <= 'Z' {
        (c as u8 + 32) as char
    } else {
        c
    }
}

/// ASCII lower case of a text.
pub open spec fn lowered(s: Text) -> Text {
    s.map_values(|c: char| lower_char(c))
}

/// Whether the ASCII lower case of `s` is `t`.
pub fn lower_is(s: &str, t: &str) -> (r: bool)
    ensures
        r == (lowered(s@) == t@),
{
    let a = chars_of(s);
    let b = chars_of(t);
    if a.len() != b.len() {
        proof {
            assert(lowered(s@).len() == a.len());
        }
        return false;
    }
    let mut i: usize = 0;
    while i < a.len()
        invariant
            i <= a.len(),
            a.len() == b.len(),
            a@ == s@,
            b@ == t@,
            forall|j: int| 0 <= j < i ==> lower_char(a[j]) == b[j],
        decreases a.len() - i,
    {
        let c = a[i];
        let l: char = if 'A' <= c && c <= 'Z' {
            (c as u8 + 32) as char
        } else {
            c
        };
        if l != b[i] {
            proof {
                assert(lowered(s@)[i as int] == l);
            }
            return false;
        }
        i += 1;
    }
    proof {
        assert(lowered(s@) =~= t@);
    }
    true
}

/// The quoted, escaped form that `{:?}` gives a text.
pub uninterp spec fn quoted(s: Seq<char>) -> Seq<char>;

/// `format!` of `{:?}` on a `str`: the result is a function of the characters
/// alone, called `quoted` here; nothing else is claimed of it.
#[verifier::external_body]
pub(crate) fn quote(s: &str) -> (r: String)
    ensures
        r@ == quoted(s@),
{
    format!("{:?}", s)
}

} // verus!
