//! The predicate model: a per-column constraint over string values.
//!
//! A predicate either keeps rows whose column value is one of a value set
//! (`In`) or keeps rows whose value is none of them (`NotIn`). The value
//! set is held canonically — strictly sorted, without duplicates — so equal
//! sets render identically however the values arrived.

use vstd::prelude::*;
use vstd::string::*;
use crate::text::canonical_values;
use crate::text::chars_lt;
use crate::text::insert_sorted_spec;
use crate::text::join_with;
use crate::text::join_strings;
use crate::text::lemma_canonical_values;
use crate::text::lemma_chars_lt_asymmetric;
use crate::text::lemma_chars_lt_connected;
use crate::text::lemma_chars_lt_irreflexive;
use crate::text::str_less;
use crate::text::strictly_sorted;
use crate::text::views_of;

verus! {

/// A constraint on one column: the value must (`In`) or must not (`NotIn`)
/// equal one of the listed values.
#[derive(Debug)]
pub enum Predicate {
    In { values: Vec<String> },
    NotIn { values: Vec<String> },
}

/// `insert_sorted_spec` walked past a prefix that is entirely below the
/// inserted value: insertion happens in the remainder.
pub proof fn lemma_insert_sorted_split(v: Seq<Seq<char>>, x: Seq<char>, i: int)
    requires
        0 <= i <= v.len(),
        forall|k: int| 0 <= k < i ==> chars_lt(#[trigger] v[k], x),
    ensures
        insert_sorted_spec(v, x) == v.take(i) + insert_sorted_spec(v.skip(i), x),
    decreases i,
{
    if i == 0 {
        assert(v.skip(0) =~= v);
        assert(v.take(0) + insert_sorted_spec(v, x) =~= insert_sorted_spec(v, x));
    } else {
        assert(chars_lt(v[0], x));
        lemma_chars_lt_asymmetric(v[0], x);
        assert(forall|k: int| 0 <= k < i - 1 ==> chars_lt(#[trigger] v.skip(1)[k], x));
        lemma_insert_sorted_split(v.skip(1), x, i - 1);
        assert(v.skip(1).skip(i - 1) =~= v.skip(i));
        assert(insert_sorted_spec(v, x) == seq![v[0]] + insert_sorted_spec(v.skip(1), x));
        assert(insert_sorted_spec(v, x) =~= v.take(i) + insert_sorted_spec(v.skip(i), x)) by {
            assert(seq![v[0]] + (v.skip(1).take(i - 1) + insert_sorted_spec(v.skip(1).skip(i - 1), x))
                =~= (seq![v[0]] + v.skip(1).take(i - 1)) + insert_sorted_spec(v.skip(i), x));
            assert(seq![v[0]] + v.skip(1).take(i - 1) =~= v.take(i));
        }
    }
}

/// Insert a value into an already canonical list, keeping it canonical.
fn insert_sorted_vec(out: &mut Vec<String>, x: String)
    ensures
        views_of(final(out)@) == insert_sorted_spec(views_of(old(out)@), x@),
{
    let ghost orig: Seq<Seq<char>> = views_of(out@);
    let mut i: usize = 0;
    loop
        invariant
            i <= out.len(),
            out@ == old(out)@,
            forall|k: int| 0 <= k < i ==> chars_lt(#[trigger] views_of(out@)[k], x@),
        ensures
            i <= out.len(),
            out@ == old(out)@,
            forall|k: int| 0 <= k < i ==> chars_lt(#[trigger] views_of(out@)[k], x@),
            i < out.len() ==> !chars_lt(views_of(out@)[i as int], x@),
        decreases out@.len() - i@,
    {
        if i == out.len() {
            break ;
        }
        if !str_less(&out[i], &x) {
            break ;
        }
        proof {
            assert(views_of(out@)[i as int] == out@[i as int]@);
        }
        i = i + 1;
    }
    proof {
        lemma_insert_sorted_split(orig, x@, i as int);
    }
    if i == out.len() {
        out.push(x);
        proof {
            assert(orig.skip(i as int).len() == 0);
            assert(insert_sorted_spec(orig.skip(i as int), x@) =~= seq![x@]);
            assert(orig.take(i as int) =~= orig);
            assert(views_of(out@) =~= orig + seq![x@]);
        }
    } else if out[i] == x {
        proof {
            assert(views_of(out@)[i as int] == out@[i as int]@);
            assert(orig.skip(i as int)[0] == orig[i as int]);
            assert(orig[i as int] == x@);
            lemma_chars_lt_irreflexive(x@);
            assert(insert_sorted_spec(orig.skip(i as int), x@) == orig.skip(i as int));
            assert(views_of(out@) =~= orig.take(i as int) + orig.skip(i as int));
        }
    } else {
        proof {
            assert(views_of(out@)[i as int] == out@[i as int]@);
            assert(orig.skip(i as int)[0] == orig[i as int]);
            assert(orig[i as int] != x@);
            if !chars_lt(x@, orig[i as int]) {
                lemma_chars_lt_connected(orig[i as int], x@);
            }
            assert(chars_lt(x@, orig[i as int]));
            assert(insert_sorted_spec(orig.skip(i as int), x@) == seq![x@] + orig.skip(i as int));
        }
        out.insert(i, x);
        proof {
            assert(views_of(out@) =~= orig.take(i as int) + (seq![x@] + orig.skip(i as int)));
        }
    }
}

/// The canonical form of a value list: sorted, duplicates dropped.
fn canonicalize(values: &Vec<String>) -> (r: Vec<String>)
    ensures
        views_of(r@) == canonical_values(views_of(values@)),
{
    let mut out: Vec<String> = Vec::new();
    let mut i: usize = 0;
    proof {
        assert(views_of(out@) =~= canonical_values(views_of(values@).take(0)));
    }
    while i < values.len()
        invariant
            i <= values.len(),
            views_of(out@) == canonical_values(views_of(values@).take(i as int)),
        decreases values@.len() - i@,
    {
        let x = values[i].clone();
        insert_sorted_vec(&mut out, x);
        proof {
            let vw = views_of(values@);
            assert(vw[i as int] == values@[i as int]@);
            assert(vw.take(i + 1).drop_last() =~= vw.take(i as int));
            assert(vw.take(i + 1).last() == vw[i as int]);
        }
        i = i + 1;
    }
    proof {
        assert(views_of(values@).take(values@.len() as int) =~= views_of(values@));
    }
    out
}

impl Predicate {
    /// Whether this is the inclusion shape.
    pub open spec fn is_in(&self) -> bool {
        self is In
    }

    /// The value set, in its stored order.
    pub open spec fn values_seq(&self) -> Seq<Seq<char>> {
        match self {
            Predicate::In { values } => views_of(values@),
            Predicate::NotIn { values } => views_of(values@),
        }
    }

    /// A well-formed predicate holds its values canonically.
    pub open spec fn wf(&self) -> bool {
        strictly_sorted(self.values_seq())
    }

    /// Build an inclusion predicate from values in any order.
    pub fn new_in(values: Vec<String>) -> (r: Predicate)
        ensures
            r is In,
            r.values_seq() == canonical_values(views_of(values@)),
            r.wf(),
    {
        let vals = canonicalize(&values);
        proof {
            lemma_canonical_values(views_of(values@));
        }
        Predicate::In { values: vals }
    }

    /// Build an exclusion predicate from values in any order.
    pub fn new_not_in(values: Vec<String>) -> (r: Predicate)
        ensures
            r is NotIn,
            r.values_seq() == canonical_values(views_of(values@)),
            r.wf(),
    {
        let vals = canonicalize(&values);
        proof {
            lemma_canonical_values(views_of(values@));
        }
        Predicate::NotIn { values: vals }
    }

    /// The stored values, for reading them out.
    pub fn values(&self) -> (r: &Vec<String>)
        ensures
            views_of(r@) == self.values_seq(),
    {
        match self {
            Predicate::In { values } => values,
            Predicate::NotIn { values } => values,
        }
    }

    /// A structural copy.
    pub fn duplicate(&self) -> (r: Predicate)
        ensures
            r.is_in() == self.is_in(),
            r.values_seq() == self.values_seq(),
    {
        let vals = clone_strings(self.values());
        match self {
            Predicate::In { values } => Predicate::In { values: vals },
            Predicate::NotIn { values } => Predicate::NotIn { values: vals },
        }
    }

    /// Whether a row value passes this predicate.
    pub fn matches_value(&self, value: &String) -> (r: bool)
        ensures
            r == pred_satisfied(self.is_in(), self.values_seq(), value@),
    {
        match self {
            Predicate::In { values } => contains_value(values, value),
            Predicate::NotIn { values } => !contains_value(values, value),
        }
    }

    /// The diagnostic rendering: `IN (v1,v2,...)` or `NOT IN (v1,v2,...)`.
    pub open spec fn render_spec(&self) -> Seq<char> {
        render_pred(self.is_in(), self.values_seq())
    }

    /// Render the predicate for diagnostics.
    pub fn render(&self) -> (r: String)
        ensures
            r@ == self.render_spec(),
    {
        let mut s = match self {
            Predicate::In { values: _ } => String::from_str("IN ("),
            Predicate::NotIn { values: _ } => String::from_str("NOT IN ("),
        };
        let joined = join_strings(self.values(), ",");
        s.append(joined.as_str());
        s.append(")");
        proof {
            assert(s@ =~= self.render_spec());
        }
        s
    }
}

/// An element-wise copy of a list of strings.
pub fn clone_strings(v: &Vec<String>) -> (r: Vec<String>)
    ensures
        views_of(r@) == views_of(v@),
{
    let mut out: Vec<String> = Vec::new();
    let mut i: usize = 0;
    while i < v.len()
        invariant
            i <= v.len(),
            out@.len() == i,
            forall|k: int| 0 <= k < i ==> #[trigger] out@[k]@ == v@[k]@,
        decreases v@.len() - i@,
    {
        out.push(v[i].clone());
        i = i + 1;
    }
    proof {
        assert(views_of(out@) =~= views_of(v@));
    }
    out
}

/// Whether a value satisfies a predicate of the given shape: membership in
/// the value set for `In`, non-membership for `NotIn`.
pub open spec fn pred_satisfied(is_in: bool, vals: Seq<Seq<char>>, value: Seq<char>) -> bool {
    if is_in {
        vals.contains(value)
    } else {
        !vals.contains(value)
    }
}

/// Whether a value list holds a value.
pub fn contains_value(vals: &Vec<String>, value: &String) -> (r: bool)
    ensures
        r == views_of(vals@).contains(value@),
{
    let mut i: usize = 0;
    while i < vals.len()
        invariant
            i <= vals.len(),
            forall|k: int| 0 <= k < i ==> #[trigger] views_of(vals@)[k] != value@,
        decreases vals@.len() - i@,
    {
        if vals[i].eq(value) {
            proof {
                assert(views_of(vals@)[i as int] == value@);
            }
            return true;
        }
        proof {
            assert(views_of(vals@)[i as int] == vals@[i as int]@);
        }
        i = i + 1;
    }
    proof {
        if views_of(vals@).contains(value@) {
            let k = choose|k: int| 0 <= k < views_of(vals@).len() && views_of(vals@)[k] == value@;
            assert(views_of(vals@)[k] != value@);
        }
    }
    false
}

/// The rendering of a predicate shape: `IN (v1,v2,...)` or
/// `NOT IN (v1,v2,...)`.
pub open spec fn render_pred(is_in: bool, vals: Seq<Seq<char>>) -> Seq<char> {
    if is_in {
        "IN ("@ + join_with(vals, ","@) + ")"@
    } else {
        "NOT IN ("@ + join_with(vals, ","@) + ")"@
    }
}

} // verus!
