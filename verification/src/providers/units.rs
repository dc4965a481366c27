//! Unit conversion queries: `<number> <unit> in|to <unit>`, e.g.
//! `5 km in miles`. This module reads the query and the unit names; the
//! arithmetic on the number, which is floating point, happens outside the
//! library, with the factors of the units in the same order as
//! `unit_name`.
use vstd::prelude::*;
use crate::text;

verus! {

/// The number of unit names.
pub const UNIT_COUNT: usize = 78;

/// Unit name `i` and its dimension (`length`, `mass`, `volume`, `speed`,
/// `data`, `time` or `temp`).
pub open spec fn unit_name(i: int) -> (Seq<char>, Seq<char>) {
    if i == 0 {
        ("m"@, "length"@)
    } else if i == 1 {
        ("meter"@, "length"@)
    } else if i == 2 {
        ("metre"@, "length"@)
    } else if i == 3 {
        ("km"@, "length"@)
    } else if i == 4 {
        ("kilometer"@, "length"@)
    } else if i == 5 {
        ("kilometre"@, "length"@)
    } else if i == 6 {
        ("cm"@, "length"@)
    } else if i == 7 {
        ("mm"@, "length"@)
    } else if i == 8 {
        ("mi"@, "length"@)
    } else if i == 9 {
        ("mile"@, "length"@)
    } else if i == 10 {
        ("yd"@, "length"@)
    } else if i == 11 {
        ("yard"@, "length"@)
    } else if i == 12 {
        ("ft"@, "length"@)
    } else if i == 13 {
        ("foot"@, "length"@)
    } else if i == 14 {
        ("feet"@, "length"@)
    } else if i == 15 {
        ("in"@, "length"@)
    } else if i == 16 {
        ("inch"@, "length"@)
    } else if i == 17 {
        ("inches"@, "length"@)
    } else if i == 18 {
        ("kg"@, "mass"@)
    } else if i == 19 {
        ("kilogram"@, "mass"@)
    } else if i == 20 {
        ("g"@, "mass"@)
    } else if i == 21 {
        ("gram"@, "mass"@)
    } else if i == 22 {
        ("mg"@, "mass"@)
    } else if i == 23 {
        ("lb"@, "mass"@)
    } else if i == 24 {
        ("pound"@, "mass"@)
    } else if i == 25 {
        ("lbs"@, "mass"@)
    } else if i == 26 {
        ("oz"@, "mass"@)
    } else if i == 27 {
        ("ounce"@, "mass"@)
    } else if i == 28 {
        ("t"@, "mass"@)
    } else if i == 29 {
        ("tonne"@, "mass"@)
    } else if i == 30 {
        ("ton"@, "mass"@)
    } else if i == 31 {
        ("l"@, "volume"@)
    } else if i == 32 {
        ("liter"@, "volume"@)
    } else if i == 33 {
        ("litre"@, "volume"@)
    } else if i == 34 {
        ("ml"@, "volume"@)
    } else if i == 35 {
        ("gal"@, "volume"@)
    } else if i == 36 {
        ("gallon"@, "volume"@)
    } else if i == 37 {
        ("qt"@, "volume"@)
    } else if i == 38 {
        ("quart"@, "volume"@)
    } else if i == 39 {
        ("pt"@, "volume"@)
    } else if i == 40 {
        ("pint"@, "volume"@)
    } else if i == 41 {
        ("cup"@, "volume"@)
    } else if i == 42 {
        ("fl oz"@, "volume"@)
    } else if i == 43 {
        ("floz"@, "volume"@)
    } else if i == 44 {
        ("m/s"@, "speed"@)
    } else if i == 45 {
        ("kmh"@, "speed"@)
    } else if i == 46 {
        ("km/h"@, "speed"@)
    } else if i == 47 {
        ("kph"@, "speed"@)
    } else if i == 48 {
        ("mph"@, "speed"@)
    } else if i == 49 {
        ("knot"@, "speed"@)
    } else if i == 50 {
        ("knots"@, "speed"@)
    } else if i == 51 {
        ("b"@, "data"@)
    } else if i == 52 {
        ("byte"@, "data"@)
    } else if i == 53 {
        ("kb"@, "data"@)
    } else if i == 54 {
        ("mb"@, "data"@)
    } else if i == 55 {
        ("gb"@, "data"@)
    } else if i == 56 {
        ("tb"@, "data"@)
    } else if i == 57 {
        ("bit"@, "data"@)
    } else if i == 58 {
        ("kbit"@, "data"@)
    } else if i == 59 {
        ("mbit"@, "data"@)
    } else if i == 60 {
        ("ms"@, "time"@)
    } else if i == 61 {
        ("millisecond"@, "time"@)
    } else if i == 62 {
        ("s"@, "time"@)
    } else if i == 63 {
        ("sec"@, "time"@)
    } else if i == 64 {
        ("second"@, "time"@)
    } else if i == 65 {
        ("min"@, "time"@)
    } else if i == 66 {
        ("minute"@, "time"@)
    } else if i == 67 {
        ("h"@, "time"@)
    } else if i == 68 {
        ("hr"@, "time"@)
    } else if i == 69 {
        ("hour"@, "time"@)
    } else if i == 70 {
        ("day"@, "time"@)
    } else if i == 71 {
        ("week"@, "time"@)
    } else if i == 72 {
        ("c"@, "temp"@)
    } else if i == 73 {
        ("celsius"@, "temp"@)
    } else if i == 74 {
        ("f"@, "temp"@)
    } else if i == 75 {
        ("fahrenheit"@, "temp"@)
    } else if i == 76 {
        ("k"@, "temp"@)
    } else {
        ("kelvin"@, "temp"@)
    }
}

fn unit_entry(i: usize) -> (r: (&'static str, &'static str))
    requires
        i < UNIT_COUNT,
    ensures
        (r.0@, r.1@) == unit_name(i as int),
{
    if i == 0 {
        ("m", "length")
    } else if i == 1 {
        ("meter", "length")
    } else if i == 2 {
        ("metre", "length")
    } else if i == 3 {
        ("km", "length")
    } else if i == 4 {
        ("kilometer", "length")
    } else if i == 5 {
        ("kilometre", "length")
    } else if i == 6 {
        ("cm", "length")
    } else if i == 7 {
        ("mm", "length")
    } else if i == 8 {
        ("mi", "length")
    } else if i == 9 {
        ("mile", "length")
    } else if i == 10 {
        ("yd", "length")
    } else if i == 11 {
        ("yard", "length")
    } else if i == 12 {
        ("ft", "length")
    } else if i == 13 {
        ("foot", "length")
    } else if i == 14 {
        ("feet", "length")
    } else if i == 15 {
        ("in", "length")
    } else if i == 16 {
        ("inch", "length")
    } else if i == 17 {
        ("inches", "length")
    } else if i == 18 {
        ("kg", "mass")
    } else if i == 19 {
        ("kilogram", "mass")
    } else if i == 20 {
        ("g", "mass")
    } else if i == 21 {
        ("gram", "mass")
    } else if i == 22 {
        ("mg", "mass")
    } else if i == 23 {
        ("lb", "mass")
    } else if i == 24 {
        ("pound", "mass")
    } else if i == 25 {
        ("lbs", "mass")
    } else if i == 26 {
        ("oz", "mass")
    } else if i == 27 {
        ("ounce", "mass")
    } else if i == 28 {
        ("t", "mass")
    } else if i == 29 {
        ("tonne", "mass")
    } else if i == 30 {
        ("ton", "mass")
    } else if i == 31 {
        ("l", "volume")
    } else if i == 32 {
        ("liter", "volume")
    } else if i == 33 {
        ("litre", "volume")
    } else if i == 34 {
        ("ml", "volume")
    } else if i == 35 {
        ("gal", "volume")
    } else if i == 36 {
        ("gallon", "volume")
    } else if i == 37 {
        ("qt", "volume")
    } else if i == 38 {
        ("quart", "volume")
    } else if i == 39 {
        ("pt", "volume")
    } else if i == 40 {
        ("pint", "volume")
    } else if i == 41 {
        ("cup", "volume")
    } else if i == 42 {
        ("fl oz", "volume")
    } else if i == 43 {
        ("floz", "volume")
    } else if i == 44 {
        ("m/s", "speed")
    } else if i == 45 {
        ("kmh", "speed")
    } else if i == 46 {
        ("km/h", "speed")
    } else if i == 47 {
        ("kph", "speed")
    } else if i == 48 {
        ("mph", "speed")
    } else if i == 49 {
        ("knot", "speed")
    } else if i == 50 {
        ("knots", "speed")
    } else if i == 51 {
        ("b", "data")
    } else if i == 52 {
        ("byte", "data")
    } else if i == 53 {
        ("kb", "data")
    } else if i == 54 {
        ("mb", "data")
    } else if i == 55 {
        ("gb", "data")
    } else if i == 56 {
        ("tb", "data")
    } else if i == 57 {
        ("bit", "data")
    } else if i == 58 {
        ("kbit", "data")
    } else if i == 59 {
        ("mbit", "data")
    } else if i == 60 {
        ("ms", "time")
    } else if i == 61 {
        ("millisecond", "time")
    } else if i == 62 {
        ("s", "time")
    } else if i == 63 {
        ("sec", "time")
    } else if i == 64 {
        ("second", "time")
    } else if i == 65 {
        ("min", "time")
    } else if i == 66 {
        ("minute", "time")
    } else if i == 67 {
        ("h", "time")
    } else if i == 68 {
        ("hr", "time")
    } else if i == 69 {
        ("hour", "time")
    } else if i == 70 {
        ("day", "time")
    } else if i == 71 {
        ("week", "time")
    } else if i == 72 {
        ("c", "temp")
    } else if i == 73 {
        ("celsius", "temp")
    } else if i == 74 {
        ("f", "temp")
    } else if i == 75 {
        ("fahrenheit", "temp")
    } else if i == 76 {
        ("k", "temp")
    } else {
        ("kelvin", "temp")
    }
}

/// The first unit named `n`, from `i` on.
pub open spec fn find_unit(n: Seq<char>, i: int) -> Option<int>
    decreases UNIT_COUNT - i,
{
    if i < 0 || i >= UNIT_COUNT {
        None
    } else if unit_name(i).0 == n {
        Some(i)
    } else {
        find_unit(n, i + 1)
    }
}

/// The unit a name stands for: the trimmed, ASCII lower-cased name, or
/// failing that, the same without a final `s`.
pub open spec fn spec_lookup_unit(name: Seq<char>) -> Option<int> {
    let n = text::ascii_lower(text::trim(name));
    match find_unit(n, 0) {
        Some(i) => Some(i),
        None => if n.len() > 0 && n.last() == 's' {
            find_unit(n.drop_last(), 0)
        } else {
            None
        },
    }
}

fn find_unit_exec(n: &Vec<char>) -> (r: Option<usize>)
    ensures
        r matches Some(i) ==> find_unit(n@, 0) == Some(i as int) && i < UNIT_COUNT,
        r is None ==> find_unit(n@, 0) is None,
{
    let mut i: usize = 0;
    while i < UNIT_COUNT
        invariant
            i <= UNIT_COUNT,
            find_unit(n@, i as int) == find_unit(n@, 0),
        decreases UNIT_COUNT - i,
    {
        let (alias, _) = unit_entry(i);
        if text::eq_str(n, alias) {
            return Some(i);
        }
        i += 1;
    }
    None
}

/// The unit (its index in the table) that `name` stands for.
pub fn lookup_unit(name: &str) -> (r: Option<usize>)
    ensures
        r matches Some(i) ==> spec_lookup_unit(name@) == Some(i as int) && i < UNIT_COUNT,
        r is None ==> spec_lookup_unit(name@) is None,
{
    let v = text::chars_of(name);
    let n = text::lower_chars(&text::trim_chars(&v));
    match find_unit_exec(&n) {
        Some(i) => Some(i),
        None => {
            if n.len() > 0 && n[n.len() - 1] == 's' {
                let m = text::subvec(&n, 0, n.len() - 1);
                assert(m@ == n@.drop_last());
                find_unit_exec(&m)
            } else {
                None
            }
        },
    }
}

/// The dimension of unit `i`.
pub fn dimension(i: usize) -> (d: &'static str)
    requires
        i < UNIT_COUNT,
    ensures
        d@ == unit_name(i as int).1,
{
    unit_entry(i).1
}

/// The non-overlapping positions of `p` in `s` from `i` on, left to right
/// (`str::match_indices`).
pub open spec fn match_positions(s: Seq<char>, p: Seq<char>, i: int) -> Seq<int>
    decreases s.len() - i,
{
    if i < 0 || p.len() == 0 || i + p.len() > s.len() {
        Seq::empty()
    } else if text::occurs_at(s, p, i) {
        seq![i] + match_positions(s, p, i + p.len())
    } else {
        match_positions(s, p, i + 1)
    }
}

/// Two increasing lists merged into one.
pub open spec fn merge(a: Seq<int>, b: Seq<int>) -> Seq<int>
    decreases a.len() + b.len(),
{
    if a.len() == 0 {
        b
    } else if b.len() == 0 {
        a
    } else if a[0] <= b[0] {
        seq![a[0]] + merge(a.drop_first(), b)
    } else {
        seq![b[0]] + merge(a, b.drop_first())
    }
}

/// Where the query may split into a left part and a target unit: the
/// positions of ` in ` and of ` to `, in increasing order.
pub open spec fn separators(q: Seq<char>) -> Seq<int> {
    merge(match_positions(q, " in "@, 0), match_positions(q, " to "@, 0))
}

/// `s` never goes down.
pub open spec fn ascending(s: Seq<int>) -> bool {
    forall|i: int, j: int| 0 <= i < j < s.len() ==> #[trigger] s[i] <= #[trigger] s[j]
}

proof fn lemma_match_positions_ascending(s: Seq<char>, p: Seq<char>, i: int)
    ensures
        ascending(match_positions(s, p, i)),
        forall|k: int| 0 <= k < match_positions(s, p, i).len() ==> #[trigger] match_positions(s, p, i)[k] >= i,
    decreases s.len() - i,
{
    if i < 0 || p.len() == 0 || i + p.len() > s.len() {
    } else if text::occurs_at(s, p, i) {
        let rest = match_positions(s, p, i + p.len());
        lemma_match_positions_ascending(s, p, i + p.len());
        let r = seq![i] + rest;
        assert forall|a: int, b: int| 0 <= a < b < r.len() implies #[trigger] r[a] <= #[trigger] r[b] by {
            assert(r[b] == rest[b - 1]);
            if a > 0 {
                assert(r[a] == rest[a - 1]);
            }
        }
        assert forall|k: int| 0 <= k < r.len() implies #[trigger] r[k] >= i by {
            if k > 0 {
                assert(r[k] == rest[k - 1]);
            }
        }
    } else {
        lemma_match_positions_ascending(s, p, i + 1);
    }
}

proof fn lemma_merge_floor(a: Seq<int>, b: Seq<int>, lo: int)
    requires
        forall|k: int| 0 <= k < a.len() ==> #[trigger] a[k] >= lo,
        forall|k: int| 0 <= k < b.len() ==> #[trigger] b[k] >= lo,
    ensures
        merge(a, b).len() == a.len() + b.len(),
        forall|k: int| 0 <= k < merge(a, b).len() ==> #[trigger] merge(a, b)[k] >= lo,
    decreases a.len() + b.len(),
{
    if a.len() > 0 && b.len() > 0 {
        if a[0] <= b[0] {
            let t = a.drop_first();
            assert forall|k: int| 0 <= k < t.len() implies #[trigger] t[k] >= lo by {
                assert(t[k] == a[k + 1]);
            }
            lemma_merge_floor(t, b, lo);
            let r = seq![a[0]] + merge(t, b);
            assert forall|k: int| 0 <= k < r.len() implies #[trigger] r[k] >= lo by {
                if k > 0 {
                    assert(r[k] == merge(t, b)[k - 1]);
                }
            }
        } else {
            let t = b.drop_first();
            assert forall|k: int| 0 <= k < t.len() implies #[trigger] t[k] >= lo by {
                assert(t[k] == b[k + 1]);
            }
            lemma_merge_floor(a, t, lo);
            let r = seq![b[0]] + merge(a, t);
            assert forall|k: int| 0 <= k < r.len() implies #[trigger] r[k] >= lo by {
                if k > 0 {
                    assert(r[k] == merge(a, t)[k - 1]);
                }
            }
        }
    }
}

proof fn lemma_merge_ascending(a: Seq<int>, b: Seq<int>)
    requires
        ascending(a),
        ascending(b),
    ensures
        ascending(merge(a, b)),
        merge(a, b).to_multiset() =~= a.to_multiset().add(b.to_multiset()),
    decreases a.len() + b.len(),
{
    broadcast use vstd::multiset::group_multiset_axioms;
    if a.len() == 0 {
        assert(a =~= Seq::<int>::empty());
        vstd::seq_lib::lemma_multiset_commutative(a, b);
        assert(a + b =~= b);
    } else if b.len() == 0 {
        assert(b =~= Seq::<int>::empty());
        vstd::seq_lib::lemma_multiset_commutative(a, b);
        assert(a + b =~= a);
    } else {
        let (h, t, other) = if a[0] <= b[0] {
            (a[0], a.drop_first(), b)
        } else {
            (b[0], b.drop_first(), a)
        };
        let src = if a[0] <= b[0] { a } else { b };
        assert(src =~= seq![h] + t);
        assert forall|i: int, j: int| 0 <= i < j < t.len() implies #[trigger] t[i] <= #[trigger] t[j] by {
            assert(t[i] == src[i + 1]);
            assert(t[j] == src[j + 1]);
        }
        assert forall|k: int| 0 <= k < t.len() implies #[trigger] t[k] >= h by {
            assert(t[k] == src[k + 1]);
            assert(src[0] <= src[k + 1]);
        }
        assert forall|k: int| 0 <= k < other.len() implies #[trigger] other[k] >= h by {
            if k > 0 {
                assert(other[0] <= other[k]);
            }
        }
        let m = if a[0] <= b[0] { merge(t, b) } else { merge(a, t) };
        if a[0] <= b[0] {
            lemma_merge_ascending(t, b);
            lemma_merge_floor(t, b, h);
        } else {
            lemma_merge_ascending(a, t);
            lemma_merge_floor(a, t, h);
        }
        let r = seq![h] + m;
        assert(merge(a, b) == r);
        assert forall|i: int, j: int| 0 <= i < j < r.len() implies #[trigger] r[i] <= #[trigger] r[j] by {
            assert(r[j] == m[j - 1]);
            if i > 0 {
                assert(r[i] == m[i - 1]);
            }
        }
        vstd::seq_lib::lemma_multiset_commutative(seq![h], m);
        vstd::seq_lib::lemma_multiset_commutative(seq![h], t);
    }
}

/// The separators are every position of ` in ` and every position of
/// ` to `, each as often as it occurs, in increasing order: the order in
/// which the readings are tried.
pub proof fn lemma_separators_in_order(q: Seq<char>)
    ensures
        ascending(separators(q)),
        separators(q).to_multiset() =~= match_positions(q, " in "@, 0).to_multiset().add(
            match_positions(q, " to "@, 0).to_multiset(),
        ),
{
    lemma_match_positions_ascending(q, " in "@, 0);
    lemma_match_positions_ascending(q, " to "@, 0);
    lemma_merge_ascending(match_positions(q, " in "@, 0), match_positions(q, " to "@, 0));
}

/// A character that can be part of the number: an ASCII digit, `.` or `-`.
pub open spec fn is_number_char(c: char) -> bool {
    text::is_digit(c) || c == '.' || c == '-'
}

/// The split at separator `sep`, when the left part has a character that
/// ends the number and both units are present: (number text, from unit,
/// to unit).
pub open spec fn split_at_sep(q: Seq<char>, sep: int) -> Option<(Seq<char>, Seq<char>, Seq<char>)> {
    let left = q.take(sep);
    let right = q.skip(sep + 4);
    let k = text::first_where(left, 0, |c: char| !is_number_char(c));
    if k >= left.len() {
        None
    } else {
        let from = text::trim(left.skip(k));
        let to = text::trim(right);
        if from.len() > 0 && to.len() > 0 {
            Some((left.take(k), from, to))
        } else {
            None
        }
    }
}

/// The candidate readings of `q`, in separator order.
pub open spec fn candidates_from(q: Seq<char>, seps: Seq<int>) -> Seq<(Seq<char>, Seq<char>, Seq<char>)>
    decreases seps.len(),
{
    if seps.len() == 0 {
        Seq::empty()
    } else {
        match split_at_sep(q, seps[0]) {
            Some(c) => seq![c] + candidates_from(q, seps.drop_first()),
            None => candidates_from(q, seps.drop_first()),
        }
    }
}

fn match_positions_exec(q: &Vec<char>, p: &Vec<char>) -> (r: Vec<usize>)
    requires
        p@.len() > 0,
    ensures
        r@.map_values(|x: usize| x as int) == match_positions(q@, p@, 0),
        forall|j: int| 0 <= j < r@.len() ==> #[trigger] r@[j] + p@.len() <= q@.len(),
{
    let mut out: Vec<usize> = Vec::new();
    let mut i: usize = 0;
    assert(out@.map_values(|x: usize| x as int) + match_positions(q@, p@, 0) == match_positions(q@, p@, 0));
    while i < q.len() && p.len() <= q.len() - i
        invariant
            p@.len() > 0,
            i <= q@.len(),
            out@.map_values(|x: usize| x as int) + match_positions(q@, p@, i as int) == match_positions(q@, p@, 0),
            forall|j: int| 0 <= j < out@.len() ==> #[trigger] out@[j] + p@.len() <= q@.len(),
        decreases q.len() - i,
    {
        if text::occurs_at_exec(q, p, i) {
            let ghost before = out@.map_values(|x: usize| x as int);
            out.push(i);
            assert(out@.map_values(|x: usize| x as int) == before.push(i as int));
            assert(before.push(i as int) + match_positions(q@, p@, i + p@.len()) == before + (seq![i as int] + match_positions(q@, p@, i + p@.len())));
            i += p.len();
        } else {
            i += 1;
        }
    }
    assert(match_positions(q@, p@, i as int) == Seq::<int>::empty());
    assert(out@.map_values(|x: usize| x as int) + Seq::<int>::empty() == out@.map_values(|x: usize| x as int));
    out
}

fn merge_exec(a: &Vec<usize>, b: &Vec<usize>) -> (r: Vec<usize>)
    ensures
        r@.map_values(|x: usize| x as int) == merge(a@.map_values(|x: usize| x as int), b@.map_values(|x: usize| x as int)),
        forall|j: int| 0 <= j < r@.len() ==> (exists|k: int| 0 <= k < a@.len() && #[trigger] r@[j] == a@[k])
            || (exists|k: int| 0 <= k < b@.len() && r@[j] == b@[k]),
{
    let ghost am = a@.map_values(|x: usize| x as int);
    let ghost bm = b@.map_values(|x: usize| x as int);
    let mut out: Vec<usize> = Vec::new();
    let mut i: usize = 0;
    let mut j: usize = 0;
    assert(am.skip(0) == am && bm.skip(0) == bm);
    while i < a.len() || j < b.len()
        invariant
            i <= a@.len(),
            j <= b@.len(),
            am == a@.map_values(|x: usize| x as int),
            bm == b@.map_values(|x: usize| x as int),
            out@.map_values(|x: usize| x as int) + merge(am.skip(i as int), bm.skip(j as int)) == merge(am, bm),
            forall|t: int| 0 <= t < out@.len() ==> (exists|k: int| 0 <= k < a@.len() && #[trigger] out@[t] == a@[k])
                || (exists|k: int| 0 <= k < b@.len() && out@[t] == b@[k]),
        decreases a.len() + b.len() - i - j,
    {
        let ghost before = out@.map_values(|x: usize| x as int);
        let ghost sa = am.skip(i as int);
        let ghost sb = bm.skip(j as int);
        if j >= b.len() || (i < a.len() && a[i] <= b[j]) {
            out.push(a[i]);
            proof {
                assert(sa[0] == a@[i as int] as int);
                assert(sa.drop_first() == am.skip(i + 1));
                if sb.len() > 0 {
                    assert(sb[0] == b@[j as int] as int);
                }
                assert(out@.map_values(|x: usize| x as int) == before.push(a@[i as int] as int));
                assert(before.push(a@[i as int] as int) + merge(sa.drop_first(), sb) == before + (seq![sa[0]] + merge(sa.drop_first(), sb)));
                assert(out@[out@.len() - 1] == a@[i as int]);
            }
            i += 1;
        } else {
            out.push(b[j]);
            proof {
                assert(sb[0] == b@[j as int] as int);
                assert(sb.drop_first() == bm.skip(j + 1));
                if sa.len() > 0 {
                    assert(sa[0] == a@[i as int] as int);
                }
                assert(out@.map_values(|x: usize| x as int) == before.push(b@[j as int] as int));
                assert(before.push(b@[j as int] as int) + merge(sa, sb.drop_first()) == before + (seq![sb[0]] + merge(sa, sb.drop_first())));
                assert(out@[out@.len() - 1] == b@[j as int]);
            }
            j += 1;
        }
    }
    assert(am.skip(i as int).len() == 0 && bm.skip(j as int).len() == 0);
    assert(out@.map_values(|x: usize| x as int) + Seq::<int>::empty() == out@.map_values(|x: usize| x as int));
    out
}

/// The candidate readings of `query`: (number text, from unit, to unit) at
/// each separator, in order. The first whose number text parses as a number
/// is the query's reading.
pub fn candidate_splits(query: &str) -> (r: Vec<(String, String, String)>)
    ensures
        r@.map_values(|c: (String, String, String)| (c.0@, c.1@, c.2@)) == candidates_from(query@, separators(query@)),
{
    let q = text::chars_of(query);
    let pin: Vec<char> = vec![' ', 'i', 'n', ' '];
    let pto: Vec<char> = vec![' ', 't', 'o', ' '];
    proof {
        reveal_strlit(" in ");
        reveal_strlit(" to ");
        assert(pin@ == " in "@);
        assert(pto@ == " to "@);
    }
    let a = match_positions_exec(&q, &pin);
    let b = match_positions_exec(&q, &pto);
    let seps = merge_exec(&a, &b);
    let ghost sm = seps@.map_values(|x: usize| x as int);
    let ql = q.len();
    let mut out: Vec<(String, String, String)> = Vec::new();
    let mut t: usize = 0;
    assert(sm.skip(0) == sm);
    assert(out@.map_values(|c: (String, String, String)| (c.0@, c.1@, c.2@)) == Seq::<(Seq<char>, Seq<char>, Seq<char>)>::empty());
    while t < seps.len()
        invariant
            t <= seps@.len(),
            q@ == query@,
            ql == q@.len(),
            sm == seps@.map_values(|x: usize| x as int),
            sm == separators(query@),
            forall|j: int| 0 <= j < seps@.len() ==> #[trigger] seps@[j] + 4 <= q@.len(),
            out@.map_values(|c: (String, String, String)| (c.0@, c.1@, c.2@)) + candidates_from(q@, sm.skip(t as int))
                == candidates_from(q@, sm),
        decreases seps.len() - t,
    {
        let sep = seps[t];
        let ghost rest = sm.skip(t as int);
        assert(rest[0] == sep as int);
        assert(rest.drop_first() == sm.skip(t + 1));
        let left = text::subvec(&q, 0, sep);
        let right = text::subvec(&q, sep + 4, q.len());
        assert(left@ == q@.take(sep as int));
        assert(right@ == q@.skip(sep + 4));
        let mut k: usize = 0;
        while k < left.len() && (text::is_ascii_digit(left[k]) || left[k] == '.' || left[k] == '-')
            invariant
                k <= left@.len(),
                text::first_where(left@, k as int, |c: char| !is_number_char(c)) == text::first_where(left@, 0, |c: char| !is_number_char(c)),
            decreases left.len() - k,
        {
            k += 1;
        }
        if k < left.len() {
            let from_raw = text::subvec(&left, k, left.len());
            assert(from_raw@ == left@.skip(k as int));
            let from = text::trim_chars(&from_raw);
            let to = text::trim_chars(&right);
            if from.len() > 0 && to.len() > 0 {
                let num = text::string_of(&left, 0, k);
                let fs = text::string_of(&from, 0, from.len());
                let ts = text::string_of(&to, 0, to.len());
                assert(from@.subrange(0, from@.len() as int) == from@);
                assert(to@.subrange(0, to@.len() as int) == to@);
                assert(left@.subrange(0, k as int) == left@.take(k as int));
                let ghost before = out@.map_values(|c: (String, String, String)| (c.0@, c.1@, c.2@));
                out.push((num, fs, ts));
                assert(out@.map_values(|c: (String, String, String)| (c.0@, c.1@, c.2@)) == before.push((left@.take(k as int), from@, to@)));
                assert(before.push((left@.take(k as int), from@, to@)) + candidates_from(q@, sm.skip(t + 1)) == before + (seq![(left@.take(k as int), from@, to@)] + candidates_from(q@, sm.skip(t + 1))));
            }
        }
        t += 1;
    }
    assert(candidates_from(q@, sm.skip(t as int)) == Seq::<(Seq<char>, Seq<char>, Seq<char>)>::empty());
    assert(out@.map_values(|c: (String, String, String)| (c.0@, c.1@, c.2@)) + Seq::<(Seq<char>, Seq<char>, Seq<char>)>::empty() == out@.map_values(|c: (String, String, String)| (c.0@, c.1@, c.2@)));
    out
}

pub struct UnitsProvider;

impl UnitsProvider {
    /// Runs when the query has an ASCII digit and ` in ` or ` to `.
    pub fn should_run(&self, query: &str) -> (b: bool)
        ensures
            b == ((exists|i: int| 0 <= i < query@.len() && text::is_digit(#[trigger] query@[i])) && (
            text::contains_seq(query@, " in "@) || text::contains_seq(query@, " to "@))),
    {
        let q = text::chars_of(query);
        let mut i: usize = 0;
        let mut digit = false;
        while i < q.len()
            invariant
                i <= q@.len(),
                q@ == query@,
                digit == exists|j: int| 0 <= j < i && text::is_digit(#[trigger] query@[j]),
            decreases q.len() - i,
        {
            if text::is_ascii_digit(q[i]) {
                digit = true;
            }
            i += 1;
        }
        let pin: Vec<char> = vec![' ', 'i', 'n', ' '];
        let pto: Vec<char> = vec![' ', 't', 'o', ' '];
        proof {
            reveal_strlit(" in ");
            reveal_strlit(" to ");
            assert(pin@ == " in "@);
            assert(pto@ == " to "@);
        }
        digit && (text::contains_exec(&q, &pin) || text::contains_exec(&q, &pto))
    }
}

} // verus!
