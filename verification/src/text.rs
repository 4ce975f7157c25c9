//! Ordering, canonical form, and rendering helpers for character sequences.
//!
//! Cached values are compared lexicographically by Unicode scalar value.
//! A canonical value list is strictly sorted in that order and free of
//! duplicates, so diagnostic output is stable however the values arrived.

use vstd::prelude::*;
use vstd::string::*;

verus! {

/// Lexicographic "strictly less" on character sequences, by scalar value.
pub open spec fn chars_lt(a: Seq<char>, b: Seq<char>) -> bool
    decreases a.len(),
{
    if b.len() == 0 {
        false
    } else if a.len() == 0 {
        true
    } else if a[0] == b[0] {
        chars_lt(a.skip(1), b.skip(1))
    } else {
        (a[0] as u32) < (b[0] as u32)
    }
}

pub proof fn lemma_chars_lt_irreflexive(a: Seq<char>)
    ensures
        !chars_lt(a, a),
    decreases a.len(),
{
    if a.len() > 0 {
        lemma_chars_lt_irreflexive(a.skip(1));
    }
}

pub proof fn lemma_chars_lt_connected(a: Seq<char>, b: Seq<char>)
    requires
        !chars_lt(a, b),
        !chars_lt(b, a),
    ensures
        a == b,
    decreases a.len(),
{
    if a.len() == 0 {
        assert(b.len() == 0);
        assert(a =~= b);
    } else if b.len() == 0 {
        assert(chars_lt(b, a));
    } else if a[0] == b[0] {
        lemma_chars_lt_connected(a.skip(1), b.skip(1));
        assert(a.skip(1).len() == a.len() - 1);
        assert(b.skip(1).len() == b.len() - 1);
        assert(a.skip(1).len() == b.skip(1).len());
        assert(a.len() == b.len());
        assert forall|i: int| 0 <= i < a.len() implies a[i] == b[i] by {
            if i > 0 {
                assert(a.skip(1)[i - 1] == a[i]);
                assert(b.skip(1)[i - 1] == b[i]);
            }
        }
        assert(a =~= b);
    } else {
        vstd::utf8::char_u32_cast(a[0], a[0] as u32);
        vstd::utf8::char_u32_cast(b[0], b[0] as u32);
        assert((a[0] as u32) != (b[0] as u32));
        assert(false);
    }
}

pub proof fn lemma_chars_lt_asymmetric(a: Seq<char>, b: Seq<char>)
    requires
        chars_lt(a, b),
    ensures
        !chars_lt(b, a),
        a != b,
    decreases a.len(),
{
    if a.len() != 0 && b.len() != 0 && a[0] == b[0] {
        lemma_chars_lt_asymmetric(a.skip(1), b.skip(1));
        assert(a != b) by {
            if a == b {
                assert(a.skip(1) == b.skip(1));
            }
        }
    } else {
        if a == b {
            lemma_chars_lt_irreflexive(a);
        }
        if a.len() != 0 && b.len() != 0 {
            vstd::utf8::char_u32_cast(a[0], a[0] as u32);
            vstd::utf8::char_u32_cast(b[0], b[0] as u32);
        }
    }
}

pub proof fn lemma_chars_lt_transitive(a: Seq<char>, b: Seq<char>, c: Seq<char>)
    requires
        chars_lt(a, b),
        chars_lt(b, c),
    ensures
        chars_lt(a, c),
    decreases a.len(),
{
    if c.len() == 0 || b.len() == 0 {
        assert(false);
    } else if a.len() == 0 {
        assert(chars_lt(a, c));
    } else {
        vstd::utf8::char_u32_cast(a[0], a[0] as u32);
        vstd::utf8::char_u32_cast(b[0], b[0] as u32);
        vstd::utf8::char_u32_cast(c[0], c[0] as u32);
        if a[0] == b[0] && b[0] == c[0] {
            lemma_chars_lt_transitive(a.skip(1), b.skip(1), c.skip(1));
        } else if a[0] == b[0] {
            assert((b[0] as u32) < (c[0] as u32));
            assert(a[0] != c[0]);
        } else if b[0] == c[0] {
            assert((a[0] as u32) < (b[0] as u32));
            assert(a[0] != c[0]);
        } else {
            assert((a[0] as u32) < (c[0] as u32));
            assert(a[0] != c[0]);
        }
    }
}

/// A strictly sorted sequence: every earlier element is lexicographically
/// below every later one; in particular there are no duplicates.
pub open spec fn strictly_sorted(v: Seq<Seq<char>>) -> bool {
    forall|i: int, j: int| 0 <= i < j < v.len() ==> chars_lt(v[i], v[j])
}

/// Two strictly sorted sequences holding the same elements are equal: the
/// canonical form of a value set is unique.
pub proof fn lemma_sorted_same_elements_equal(u: Seq<Seq<char>>, v: Seq<Seq<char>>)
    requires
        strictly_sorted(u),
        strictly_sorted(v),
        forall|x: Seq<char>| u.contains(x) <==> v.contains(x),
    ensures
        u == v,
    decreases u.len(),
{
    if u.len() == 0 {
        if v.len() > 0 {
            assert(v.contains(v[0]));
        }
        assert(u =~= v);
    } else if v.len() == 0 {
        assert(u.contains(u[0]));
        assert(false);
    } else {
        assert(u.contains(u[0]));
        assert(v.contains(v[0]));
        let j = choose|j: int| 0 <= j < v.len() && v[j] == u[0];
        let i = choose|i: int| 0 <= i < u.len() && u[i] == v[0];
        if u[0] != v[0] {
            assert(j != 0 && i != 0);
            assert(chars_lt(v[0], v[j]));
            assert(chars_lt(u[0], u[i]));
            lemma_chars_lt_transitive(v[0], u[0], v[0]);
            lemma_chars_lt_irreflexive(v[0]);
            assert(false);
        }
        assert(strictly_sorted(u.skip(1))) by {
            assert(forall|p: int, q: int|
                0 <= p < q < u.skip(1).len() ==> #[trigger] chars_lt(u.skip(1)[p], u.skip(1)[q])
                    == chars_lt(u[p + 1], u[q + 1]));
        }
        assert(strictly_sorted(v.skip(1))) by {
            assert(forall|p: int, q: int|
                0 <= p < q < v.skip(1).len() ==> #[trigger] chars_lt(v.skip(1)[p], v.skip(1)[q])
                    == chars_lt(v[p + 1], v[q + 1]));
        }
        assert forall|x: Seq<char>| u.skip(1).contains(x) implies v.skip(1).contains(x) by {
            let k = choose|k: int| 0 <= k < u.skip(1).len() && u.skip(1)[k] == x;
            assert(u[k + 1] == x);
            assert(chars_lt(u[0], x));
            lemma_chars_lt_asymmetric(u[0], x);
            assert(u.contains(x));
            assert(v.contains(x));
            let m = choose|m: int| 0 <= m < v.len() && v[m] == x;
            assert(m != 0);
            assert(v.skip(1)[m - 1] == x);
        }
        assert forall|x: Seq<char>| v.skip(1).contains(x) implies u.skip(1).contains(x) by {
            let k = choose|k: int| 0 <= k < v.skip(1).len() && v.skip(1)[k] == x;
            assert(v[k + 1] == x);
            assert(chars_lt(v[0], x));
            lemma_chars_lt_asymmetric(v[0], x);
            assert(v.contains(x));
            assert(u.contains(x));
            let m = choose|m: int| 0 <= m < u.len() && u[m] == x;
            assert(m != 0);
            assert(u.skip(1)[m - 1] == x);
        }
        lemma_sorted_same_elements_equal(u.skip(1), v.skip(1));
        assert(u.len() == v.len());
        assert forall|p: int| 0 <= p < u.len() implies u[p] == v[p] by {
            if p > 0 {
                assert(u.skip(1)[p - 1] == u[p]);
                assert(v.skip(1)[p - 1] == v[p]);
            }
        }
        assert(u =~= v);
    }
}

/// Insert one value into a strictly sorted sequence, keeping it strictly
/// sorted and dropping the value if it is already present.
pub open spec fn insert_sorted_spec(v: Seq<Seq<char>>, x: Seq<char>) -> Seq<Seq<char>>
    decreases v.len(),
{
    if v.len() == 0 {
        seq![x]
    } else if chars_lt(x, v[0]) {
        seq![x] + v
    } else if x == v[0] {
        v
    } else {
        seq![v[0]] + insert_sorted_spec(v.skip(1), x)
    }
}

pub proof fn lemma_insert_sorted(v: Seq<Seq<char>>, x: Seq<char>)
    requires
        strictly_sorted(v),
    ensures
        strictly_sorted(insert_sorted_spec(v, x)),
        forall|y: Seq<char>|
            #[trigger] insert_sorted_spec(v, x).contains(y) <==> (v.contains(y) || y == x),
    decreases v.len(),
{
    let r = insert_sorted_spec(v, x);
    if v.len() == 0 {
        assert(r == seq![x]);
        assert(r[0] == x);
        assert forall|y: Seq<char>| r.contains(y) implies (v.contains(y) || y == x) by {
            let k = choose|k: int| 0 <= k < r.len() && r[k] == y;
        }
        assert(r.contains(x));
    } else if chars_lt(x, v[0]) {
        assert(r == seq![x] + v);
        assert forall|i: int, j: int| 0 <= i < j < r.len() implies chars_lt(r[i], r[j]) by {
            if i == 0 {
                if j == 1 {
                    assert(r[j] == v[0]);
                } else {
                    assert(r[j] == v[j - 1]);
                    assert(chars_lt(v[0], v[j - 1]));
                    lemma_chars_lt_transitive(x, v[0], v[j - 1]);
                }
            } else {
                assert(r[i] == v[i - 1] && r[j] == v[j - 1]);
            }
        }
        assert forall|y: Seq<char>| r.contains(y) implies (v.contains(y) || y == x) by {
            let k = choose|k: int| 0 <= k < r.len() && r[k] == y;
            if k > 0 {
                assert(v[k - 1] == y);
                assert(v.contains(y));
            }
        }
        assert forall|y: Seq<char>| (v.contains(y) || y == x) implies r.contains(y) by {
            if v.contains(y) {
                let k = choose|k: int| 0 <= k < v.len() && v[k] == y;
                assert(r[k + 1] == y);
            } else {
                assert(r[0] == x);
            }
        }
    } else if x == v[0] {
        assert(r == v);
        assert forall|y: Seq<char>| (v.contains(y) || y == x) implies r.contains(y) by {
            if y == x {
                assert(v[0] == y);
            }
        }
    } else {
        if !chars_lt(v[0], x) {
            lemma_chars_lt_connected(x, v[0]);
            assert(false);
        }
        assert(chars_lt(v[0], x));
        assert(strictly_sorted(v.skip(1))) by {
            assert(forall|p: int, q: int|
                0 <= p < q < v.skip(1).len() ==> #[trigger] chars_lt(v.skip(1)[p], v.skip(1)[q])
                    == chars_lt(v[p + 1], v[q + 1]));
        }
        lemma_insert_sorted(v.skip(1), x);
        let t = insert_sorted_spec(v.skip(1), x);
        assert(r == seq![v[0]] + t);
        assert forall|i: int, j: int| 0 <= i < j < r.len() implies chars_lt(r[i], r[j]) by {
            if i == 0 {
                assert(r[j] == t[j - 1]);
                assert(t.contains(t[j - 1]));
                if v.skip(1).contains(t[j - 1]) {
                    let k = choose|k: int| 0 <= k < v.skip(1).len() && v.skip(1)[k] == t[j - 1];
                    assert(v[k + 1] == t[j - 1]);
                    assert(chars_lt(v[0], v[k + 1]));
                } else {
                    assert(t[j - 1] == x);
                }
            } else {
                assert(r[i] == t[i - 1] && r[j] == t[j - 1]);
            }
        }
        assert forall|y: Seq<char>| r.contains(y) implies (v.contains(y) || y == x) by {
            let k = choose|k: int| 0 <= k < r.len() && r[k] == y;
            if k == 0 {
                assert(v[0] == y);
                assert(v.contains(y));
            } else {
                assert(t[k - 1] == y);
                assert(t.contains(y));
                if v.skip(1).contains(y) {
                    let m = choose|m: int| 0 <= m < v.skip(1).len() && v.skip(1)[m] == y;
                    assert(v[m + 1] == y);
                    assert(v.contains(y));
                }
            }
        }
        assert forall|y: Seq<char>| (v.contains(y) || y == x) implies r.contains(y) by {
            if y == x {
                assert(t.contains(y));
                let m = choose|m: int| 0 <= m < t.len() && t[m] == y;
                assert(r[m + 1] == y);
            } else {
                let k = choose|k: int| 0 <= k < v.len() && v[k] == y;
                if k == 0 {
                    assert(r[0] == y);
                } else {
                    assert(v.skip(1)[k - 1] == y);
                    assert(v.skip(1).contains(y));
                    assert(t.contains(y));
                    let m = choose|m: int| 0 <= m < t.len() && t[m] == y;
                    assert(r[m + 1] == y);
                }
            }
        }
    }
}

/// The canonical (strictly sorted, duplicate-free) form of a value list.
pub open spec fn canonical_values(vs: Seq<Seq<char>>) -> Seq<Seq<char>>
    decreases vs.len(),
{
    if vs.len() == 0 {
        Seq::empty()
    } else {
        insert_sorted_spec(canonical_values(vs.drop_last()), vs.last())
    }
}

pub proof fn lemma_canonical_values(vs: Seq<Seq<char>>)
    ensures
        strictly_sorted(canonical_values(vs)),
        forall|y: Seq<char>| #[trigger] canonical_values(vs).contains(y) <==> vs.contains(y),
    decreases vs.len(),
{
    if vs.len() == 0 {
        assert(forall|y: Seq<char>| !canonical_values(vs).contains(y));
        assert(forall|y: Seq<char>| !vs.contains(y));
    } else {
        lemma_canonical_values(vs.drop_last());
        lemma_insert_sorted(canonical_values(vs.drop_last()), vs.last());
        assert forall|y: Seq<char>| canonical_values(vs).contains(y) implies vs.contains(y) by {
            if vs.drop_last().contains(y) {
                let k = choose|k: int| 0 <= k < vs.drop_last().len() && vs.drop_last()[k] == y;
                assert(vs[k] == y);
            } else {
                assert(vs[vs.len() - 1] == y);
            }
        }
        assert forall|y: Seq<char>| vs.contains(y) implies canonical_values(vs).contains(y) by {
            let k = choose|k: int| 0 <= k < vs.len() && vs[k] == y;
            if k < vs.len() - 1 {
                assert(vs.drop_last()[k] == y);
                assert(vs.drop_last().contains(y));
                assert(canonical_values(vs.drop_last()).contains(y));
                assert(insert_sorted_spec(canonical_values(vs.drop_last()), vs.last()).contains(
                    y,
                ));
            } else {
                assert(vs.last() == y);
                assert(insert_sorted_spec(canonical_values(vs.drop_last()), vs.last()).contains(
                    y,
                ));
            }
        }
    }
}

/// The canonical form depends only on which values occur, not on their
/// order or multiplicity in the incoming list.
pub proof fn lemma_canonical_order_independent(vs1: Seq<Seq<char>>, vs2: Seq<Seq<char>>)
    requires
        forall|x: Seq<char>| vs1.contains(x) <==> vs2.contains(x),
    ensures
        canonical_values(vs1) == canonical_values(vs2),
{
    lemma_canonical_values(vs1);
    lemma_canonical_values(vs2);
    assert forall|x: Seq<char>|
        canonical_values(vs1).contains(x) <==> canonical_values(vs2).contains(x) by {
        assert(canonical_values(vs1).contains(x) <==> vs1.contains(x));
        assert(canonical_values(vs2).contains(x) <==> vs2.contains(x));
    }
    lemma_sorted_same_elements_equal(canonical_values(vs1), canonical_values(vs2));
}

/// The views of a sequence of strings.
pub open spec fn views_of(v: Seq<String>) -> Seq<Seq<char>> {
    v.map_values(|s: String| s@)
}

/// Compare two strings from character position `i` on.
fn str_less_from(a: &str, b: &str, i: usize) -> (r: bool)
    requires
        i <= a@.len(),
        i <= b@.len(),
    ensures
        r == chars_lt(a@.skip(i as int), b@.skip(i as int)),
    decreases a@.len() - i@,
{
    let b_len = b.unicode_len();
    if i == b_len {
        return false;
    }
    let a_len = a.unicode_len();
    if i == a_len {
        return true;
    }
    let ca = a.get_char(i);
    let cb = b.get_char(i);
    if ca == cb {
        let r = str_less_from(a, b, i + 1);
        proof {
            assert(a@.skip(i as int).skip(1) =~= a@.skip(i + 1));
            assert(b@.skip(i as int).skip(1) =~= b@.skip(i + 1));
            assert(a@.skip(i as int)[0] == ca && b@.skip(i as int)[0] == cb);
        }
        r
    } else {
        proof {
            assert(a@.skip(i as int)[0] == ca && b@.skip(i as int)[0] == cb);
        }
        (ca as u32) < (cb as u32)
    }
}

/// Lexicographic "strictly less" on strings.
pub fn str_less(a: &String, b: &String) -> (r: bool)
    ensures
        r == chars_lt(a@, b@),
{
    let r = str_less_from(a.as_str(), b.as_str(), 0);
    proof {
        assert(a@.skip(0) =~= a@);
        assert(b@.skip(0) =~= b@);
    }
    r
}

/// The decimal digit character for one digit value.
pub open spec fn digit_char(d: int) -> char {
    if d == 0 {
        '0'
    } else if d == 1 {
        '1'
    } else if d == 2 {
        '2'
    } else if d == 3 {
        '3'
    } else if d == 4 {
        '4'
    } else if d == 5 {
        '5'
    } else if d == 6 {
        '6'
    } else if d == 7 {
        '7'
    } else if d == 8 {
        '8'
    } else {
        '9'
    }
}

/// The decimal rendering of a number, most significant digit first.
pub open spec fn decimal_chars(n: nat) -> Seq<char>
    decreases n,
{
    if n < 10 {
        seq![digit_char(n as int)]
    } else {
        decimal_chars(n / 10).push(digit_char((n % 10) as int))
    }
}

fn digit_str(d: u64) -> (r: &'static str)
    requires
        d < 10,
    ensures
        r@ == seq![digit_char(d as int)],
{
    proof {
        reveal_strlit("0");
        reveal_strlit("1");
        reveal_strlit("2");
        reveal_strlit("3");
        reveal_strlit("4");
        reveal_strlit("5");
        reveal_strlit("6");
        reveal_strlit("7");
        reveal_strlit("8");
        reveal_strlit("9");
    }
    let r = if d == 0 {
        "0"
    } else if d == 1 {
        "1"
    } else if d == 2 {
        "2"
    } else if d == 3 {
        "3"
    } else if d == 4 {
        "4"
    } else if d == 5 {
        "5"
    } else if d == 6 {
        "6"
    } else if d == 7 {
        "7"
    } else if d == 8 {
        "8"
    } else {
        "9"
    };
    proof {
        assert(r@ =~= seq![digit_char(d as int)]);
    }
    r
}

/// Render a number in decimal.
pub fn u64_to_string(n: u64) -> (r: String)
    ensures
        r@ == decimal_chars(n as nat),
    decreases n,
{
    if n < 10 {
        let s = String::from_str(digit_str(n));
        s
    } else {
        let mut s = u64_to_string(n / 10);
        s.append(digit_str(n % 10));
        proof {
            assert(s@ =~= decimal_chars(n as nat));
        }
        s
    }
}

/// The elements of a value list joined by a separator.
pub open spec fn join_with(vals: Seq<Seq<char>>, sep: Seq<char>) -> Seq<char>
    decreases vals.len(),
{
    if vals.len() == 0 {
        Seq::empty()
    } else if vals.len() == 1 {
        vals[0]
    } else {
        vals[0] + sep + join_with(vals.skip(1), sep)
    }
}

fn join_from(vals: &Vec<String>, i: usize, sep: &str) -> (r: String)
    requires
        i <= vals@.len(),
    ensures
        r@ == join_with(views_of(vals@).skip(i as int), sep@),
    decreases vals@.len() - i@,
{
    if i == vals.len() {
        let r = String::new();
        proof {
            assert(views_of(vals@).skip(i as int).len() == 0);
        }
        r
    } else if i + 1 == vals.len() {
        let r = vals[i].clone();
        proof {
            assert(views_of(vals@).skip(i as int).len() == 1);
            assert(views_of(vals@).skip(i as int)[0] == vals@[i as int]@);
        }
        r
    } else {
        let mut s = vals[i].clone();
        s.append(sep);
        let rest = join_from(vals, i + 1, sep);
        s.append(rest.as_str());
        proof {
            let vw = views_of(vals@);
            assert(vw.skip(i as int)[0] == vals@[i as int]@);
            assert(vw.skip(i as int).skip(1) =~= vw.skip(i + 1));
            assert(s@ =~= vw.skip(i as int)[0] + sep@ + join_with(vw.skip(i + 1), sep@));
        }
        s
    }
}

/// Join the strings of a list with a separator.
pub fn join_strings(vals: &Vec<String>, sep: &str) -> (r: String)
    ensures
        r@ == join_with(views_of(vals@), sep@),
{
    let r = join_from(vals, 0, sep);
    proof {
        assert(views_of(vals@).skip(0) =~= views_of(vals@));
    }
    r
}

} // verus!
