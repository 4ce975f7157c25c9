//! The constraint extractor's core: turning literal guarantees into a
//! per-column constraint map.
//!
//! Each guarantee says of one column that its value provably is (or is not)
//! among a set of literals. Non-string literals are dropped; a guarantee
//! whose set empties out is skipped. At most one predicate is kept per
//! column: a second guarantee on a column discards the column entirely —
//! conservatively pushing nothing rather than something subtly wrong. The
//! map keeps columns in the order they were first referenced.

use vstd::prelude::*;
use vstd::string::*;
use crate::catalog::ColumnId;
use crate::catalog::TableDefinition;
use crate::catalog::find_column_id;
use crate::errors::CacheCallError;
use crate::predicate::Predicate;
use crate::text::canonical_values;
use crate::text::views_of;

verus! {

/// Polarity of a literal guarantee.
#[derive(Clone, Copy, PartialEq, Eq, Structural, Debug)]
pub enum GuaranteeKind {
    In,
    NotIn,
}

/// One literal guarantee from the engine's analysis of a filter: the column
/// it speaks of, its polarity, and the literal values — a non-string
/// literal is carried as `None`.
#[derive(Debug)]
pub struct FilterGuarantee {
    pub column: String,
    pub kind: GuaranteeKind,
    pub literals: Vec<Option<String>>,
}

/// The string literals of a guarantee, in order; non-strings drop out.
pub open spec fn kept_strings(l: Seq<Option<String>>) -> Seq<Seq<char>>
    decreases l.len(),
{
    if l.len() == 0 {
        Seq::empty()
    } else {
        let rest = kept_strings(l.drop_last());
        match l.last() {
            Some(s) => rest.push(s@),
            None => rest,
        }
    }
}

/// A guarantee is vacuous when no string literal survives filtering.
pub open spec fn guarantee_vacuous(g: FilterGuarantee) -> bool {
    kept_strings(g.literals@).len() == 0
}

/// The predicate a guarantee yields: its polarity and the canonical form
/// of its surviving string literals.
pub open spec fn guarantee_pred(g: FilterGuarantee) -> (bool, Seq<Seq<char>>) {
    (g.kind is In, canonical_values(kept_strings(g.literals@)))
}

/// The first entry with the given key in a builder sequence.
pub open spec fn find_key(
    m: Seq<(ColumnId, Option<(bool, Seq<Seq<char>>)>)>,
    id: ColumnId,
) -> Option<int>
    decreases m.len(),
{
    if m.len() == 0 {
        None
    } else if m[0].0 == id {
        Some(0int)
    } else {
        match find_key(m.skip(1), id) {
            Some(j) => Some(j + 1),
            None => None,
        }
    }
}

pub proof fn lemma_find_key(m: Seq<(ColumnId, Option<(bool, Seq<Seq<char>>)>)>, id: ColumnId)
    ensures
        match find_key(m, id) {
            Some(j) => 0 <= j < m.len() && m[j].0 == id && forall|k: int|
                0 <= k < j ==> (#[trigger] m[k]).0 != id,
            None => forall|k: int| 0 <= k < m.len() ==> (#[trigger] m[k]).0 != id,
        },
    decreases m.len(),
{
    if m.len() > 0 && m[0].0 != id {
        lemma_find_key(m.skip(1), id);
        match find_key(m.skip(1), id) {
            Some(j) => {
                assert(m[j + 1] == m.skip(1)[j]);
                assert(forall|k: int| 1 <= k < j + 1 ==> (#[trigger] m[k]) == m.skip(1)[k - 1]);
            },
            None => {
                assert(forall|k: int|
                    1 <= k < m.len() ==> (#[trigger] m[k]) == m.skip(1)[k - 1]);
            },
        }
    }
}

/// One guarantee applied to the builder: resolve the column (an unknown
/// name is a fatal planning error), skip a vacuous guarantee, tombstone a
/// column seen before, otherwise append its predicate.
pub open spec fn apply_guarantee(
    m: Seq<(ColumnId, Option<(bool, Seq<Seq<char>>)>)>,
    g: FilterGuarantee,
    t: TableDefinition,
) -> Result<Seq<(ColumnId, Option<(bool, Seq<Seq<char>>)>)>, Seq<char>> {
    match find_column_id(t.columns@, g.column@) {
        None => Err(g.column@),
        Some(id) => {
            if guarantee_vacuous(g) {
                Ok(m)
            } else {
                match find_key(m, id) {
                    Some(j) => Ok(m.update(j, (id, None))),
                    None => Ok(m.push((id, Some(guarantee_pred(g))))),
                }
            }
        },
    }
}

/// The builder after all guarantees, or the first unresolvable column name.
pub open spec fn build_entries(gs: Seq<FilterGuarantee>, t: TableDefinition) -> Result<
    Seq<(ColumnId, Option<(bool, Seq<Seq<char>>)>)>,
    Seq<char>,
>
    decreases gs.len(),
{
    if gs.len() == 0 {
        Ok(Seq::empty())
    } else {
        match build_entries(gs.drop_last(), t) {
            Err(e) => Err(e),
            Ok(m) => apply_guarantee(m, gs.last(), t),
        }
    }
}

/// The finished map: tombstoned columns drop out, order is kept.
pub open spec fn finish_entries(m: Seq<(ColumnId, Option<(bool, Seq<Seq<char>>)>)>) -> Seq<
    (ColumnId, (bool, Seq<Seq<char>>)),
>
    decreases m.len(),
{
    if m.len() == 0 {
        Seq::empty()
    } else {
        let rest = finish_entries(m.drop_last());
        match m.last().1 {
            Some(pv) => rest.push((m.last().0, pv)),
            None => rest,
        }
    }
}

/// An error that happened within a prefix decides the whole build.
pub proof fn lemma_build_err_extends(gs: Seq<FilterGuarantee>, t: TableDefinition, k: int)
    requires
        0 <= k <= gs.len(),
        build_entries(gs.take(k), t) is Err,
    ensures
        build_entries(gs, t) == build_entries(gs.take(k), t),
    decreases gs.len() - k,
{
    if k == gs.len() {
        assert(gs.take(k) =~= gs);
    } else {
        assert(gs.take(k + 1).drop_last() =~= gs.take(k));
        lemma_build_err_extends(gs, t, k + 1);
    }
}

/// The per-column constraint map, insertion-ordered.
#[derive(Debug)]
pub struct ConstraintMap {
    pub entries: Vec<(ColumnId, Predicate)>,
}

impl ConstraintMap {
    /// The abstract content: column keys with predicate shape and values.
    pub open spec fn view_entries(&self) -> Seq<(ColumnId, (bool, Seq<Seq<char>>))> {
        self.entries@.map_values(
            |e: (ColumnId, Predicate)| (e.0, (e.1.is_in(), e.1.values_seq())),
        )
    }

    /// How many columns are constrained.
    pub fn len(&self) -> (r: usize)
        ensures
            r == self.view_entries().len(),
    {
        self.entries.len()
    }

    /// Whether no constraint was derived.
    pub fn is_empty(&self) -> (r: bool)
        ensures
            r == (self.view_entries().len() == 0),
    {
        self.entries.len() == 0
    }
}

/// The view of the builder vector.
pub open spec fn builder_view(b: Seq<(ColumnId, Option<Predicate>)>) -> Seq<
    (ColumnId, Option<(bool, Seq<Seq<char>>)>),
> {
    b.map_values(
        |e: (ColumnId, Option<Predicate>)|
            (
                e.0,
                match e.1 {
                    Some(p) => Some((p.is_in(), p.values_seq())),
                    None => None,
                },
            ),
    )
}

/// Find a key in the builder vector.
fn find_key_vec(b: &Vec<(ColumnId, Option<Predicate>)>, id: ColumnId) -> (r: Option<usize>)
    ensures
        match r {
            Some(j) => find_key(builder_view(b@), id) == Some(j as int),
            None => find_key(builder_view(b@), id) is None,
        },
{
    proof {
        lemma_find_key(builder_view(b@), id);
    }
    let mut i: usize = 0;
    while i < b.len()
        invariant
            i <= b.len(),
            forall|k: int| 0 <= k < i ==> (#[trigger] b@[k]).0 != id,
        decreases b@.len() - i@,
    {
        if b[i].0 == id {
            proof {
                lemma_find_key(builder_view(b@), id);
                match find_key(builder_view(b@), id) {
                    Some(j) => {
                        if j < i {
                            assert(builder_view(b@)[j].0 == b@[j].0);
                            assert(b@[j].0 != id);
                        }
                        if j > i {
                            assert(builder_view(b@)[i as int].0 == b@[i as int].0);
                        }
                        assert(j == i);
                    },
                    None => {
                        assert(builder_view(b@)[i as int].0 == b@[i as int].0);
                    },
                }
            }
            return Some(i);
        }
        i = i + 1;
    }
    proof {
        lemma_find_key(builder_view(b@), id);
        if find_key(builder_view(b@), id) is Some {
            let j = find_key(builder_view(b@), id).unwrap();
            assert(builder_view(b@)[j].0 == b@[j].0);
        }
    }
    None
}

/// Build the constraint map from a list of guarantees against a table.
///
/// Exactly the fold of `apply_guarantee` over the guarantees: `Ok` with the
/// finished, tombstone-free map when every referenced column resolves, and
/// the planning error naming the first unresolvable column otherwise.
pub fn build_constraint_map(gs: &Vec<FilterGuarantee>, t: &TableDefinition) -> (r: Result<
    ConstraintMap,
    CacheCallError,
>)
    ensures
        match r {
            Ok(m) => {
                &&& build_entries(gs@, *t) is Ok
                &&& m.view_entries() == finish_entries(build_entries(gs@, *t)->Ok_0)
            },
            Err(e) => match e {
                CacheCallError::InvalidColumnName(c) => build_entries(gs@, *t) == Err::<
                    Seq<(ColumnId, Option<(bool, Seq<Seq<char>>)>)>,
                    Seq<char>,
                >(c@),
                _ => false,
            },
        },
{
    let mut builder: Vec<(ColumnId, Option<Predicate>)> = Vec::new();
    let mut gi: usize = 0;
    proof {
        assert(gs@.take(0) =~= Seq::<FilterGuarantee>::empty());
        assert(builder_view(builder@) =~= Seq::<
            (ColumnId, Option<(bool, Seq<Seq<char>>)>),
        >::empty());
    }
    while gi < gs.len()
        invariant
            gi <= gs.len(),
            build_entries(gs@.take(gi as int), *t) is Ok,
            builder_view(builder@) == build_entries(gs@.take(gi as int), *t)->Ok_0,
        decreases gs@.len() - gi@,
    {
        proof {
            assert(gs@.take(gi + 1).drop_last() =~= gs@.take(gi as int));
            assert(gs@.take(gi + 1).last() == gs@[gi as int]);
        }
        match t.column_name_to_id(&gs[gi].column) {
            None => {
                proof {
                    assert(build_entries(gs@.take(gi + 1), *t) == Err::<
                        Seq<(ColumnId, Option<(bool, Seq<Seq<char>>)>)>,
                        Seq<char>,
                    >(gs@[gi as int].column@));
                    lemma_build_err_extends(gs@, *t, gi + 1);
                }
                return Err(CacheCallError::InvalidColumnName(gs[gi].column.clone()));
            },
            Some(id) => {
                let mut kept: Vec<String> = Vec::new();
                let mut li: usize = 0;
                proof {
                    assert(gs@[gi as int].literals@.take(0) =~= Seq::<Option<String>>::empty());
                    assert(views_of(kept@) =~= kept_strings(
                        gs@[gi as int].literals@.take(0),
                    ));
                }
                while li < gs[gi].literals.len()
                    invariant
                        gi < gs.len(),
                        li <= gs@[gi as int].literals@.len(),
                        views_of(kept@) == kept_strings(gs@[gi as int].literals@.take(li as int)),
                    decreases gs@[gi as int].literals@.len() - li@,
                {
                    proof {
                        let lits = gs@[gi as int].literals@;
                        assert(lits.take(li + 1).drop_last() =~= lits.take(li as int));
                        assert(lits.take(li + 1).last() == lits[li as int]);
                    }
                    match &gs[gi].literals[li] {
                        Some(s) => {
                            kept.push(s.clone());
                            proof {
                                assert(views_of(kept@) =~= kept_strings(
                                    gs@[gi as int].literals@.take(li + 1),
                                ));
                            }
                        },
                        None => {},
                    }
                    li = li + 1;
                }
                proof {
                    assert(gs@[gi as int].literals@.take(li as int) =~= gs@[gi as int].literals@);
                }
                if kept.len() > 0 {
                    let pred = match gs[gi].kind {
                        GuaranteeKind::In => Predicate::new_in(kept),
                        GuaranteeKind::NotIn => Predicate::new_not_in(kept),
                    };
                    let ghost pre_builder = builder_view(builder@);
                    match find_key_vec(&builder, id) {
                        Some(j) => {
                            proof {
                                lemma_find_key(pre_builder, id);
                                assert(pre_builder.len() == builder@.len());
                                assert((j as int) < builder@.len());
                            }
                            builder[j] = (id, None);
                            proof {
                                lemma_find_key(pre_builder, id);
                                assert(builder_view(builder@) =~= pre_builder.update(
                                    j as int,
                                    (id, None),
                                ));
                            }
                        },
                        None => {
                            builder.push((id, Some(pred)));
                            proof {
                                assert(builder_view(builder@) =~= pre_builder.push(
                                    (id, Some(guarantee_pred(gs@[gi as int]))),
                                ));
                            }
                        },
                    }
                } else {
                    proof {
                        assert(guarantee_vacuous(gs@[gi as int]));
                    }
                }
            },
        }
        gi = gi + 1;
    }
    proof {
        assert(gs@.take(gi as int) =~= gs@);
    }
    let mut entries: Vec<(ColumnId, Predicate)> = Vec::new();
    let mut bi: usize = 0;
    proof {
        assert(builder@.take(0) =~= Seq::<(ColumnId, Option<Predicate>)>::empty());
        assert(builder_view(builder@.take(0)) =~= Seq::<
            (ColumnId, Option<(bool, Seq<Seq<char>>)>),
        >::empty());
        assert(entries@.map_values(
            |e: (ColumnId, Predicate)| (e.0, (e.1.is_in(), e.1.values_seq())),
        ) =~= finish_entries(builder_view(builder@.take(0))));
    }
    while bi < builder.len()
        invariant
            bi <= builder.len(),
            entries@.map_values(|e: (ColumnId, Predicate)| (e.0, (e.1.is_in(), e.1.values_seq())))
                == finish_entries(builder_view(builder@.take(bi as int))),
        decreases builder@.len() - bi@,
    {
        proof {
            assert(builder_view(builder@.take(bi + 1)).drop_last() =~= builder_view(
                builder@.take(bi as int),
            ));
            assert(builder_view(builder@.take(bi + 1)).last() == builder_view(builder@)[bi
                as int]);
        }
        match &builder[bi].1 {
            Some(p) => {
                let key = builder[bi].0;
                let copied = p.duplicate();
                entries.push((key, copied));
                proof {
                    assert(entries@.map_values(
                        |e: (ColumnId, Predicate)| (e.0, (e.1.is_in(), e.1.values_seq())),
                    ) =~= finish_entries(builder_view(builder@.take(bi + 1))));
                }
            },
            None => {},
        }
        bi = bi + 1;
    }
    proof {
        assert(builder@.take(bi as int) =~= builder@);
    }
    Ok(ConstraintMap { entries })
}

/// Two guarantees carry the same information when they name the same
/// column with the same polarity and their literal lists hold the same
/// string values — the order and multiplicity of literals carry none.
pub open spec fn guarantee_equiv(a: FilterGuarantee, b: FilterGuarantee) -> bool {
    &&& a.column@ == b.column@
    &&& a.kind == b.kind
    &&& forall|x: Seq<char>|
        kept_strings(a.literals@).contains(x) <==> kept_strings(b.literals@).contains(x)
}

/// Element-wise equivalence of guarantee lists.
pub open spec fn guarantees_equiv(a: Seq<FilterGuarantee>, b: Seq<FilterGuarantee>) -> bool {
    &&& a.len() == b.len()
    &&& forall|i: int| 0 <= i < a.len() ==> guarantee_equiv(#[trigger] a[i], #[trigger] b[i])
}

pub proof fn lemma_equiv_vacuous(a: FilterGuarantee, b: FilterGuarantee)
    requires
        guarantee_equiv(a, b),
    ensures
        guarantee_vacuous(a) == guarantee_vacuous(b),
{
    let ka = kept_strings(a.literals@);
    let kb = kept_strings(b.literals@);
    if ka.len() > 0 {
        assert(ka.contains(ka[0]));
        assert(kb.contains(ka[0]));
    }
    if kb.len() > 0 {
        assert(kb.contains(kb[0]));
        assert(ka.contains(kb[0]));
    }
}

pub proof fn lemma_equiv_pred(a: FilterGuarantee, b: FilterGuarantee)
    requires
        guarantee_equiv(a, b),
    ensures
        guarantee_pred(a) == guarantee_pred(b),
{
    crate::text::lemma_canonical_order_independent(
        kept_strings(a.literals@),
        kept_strings(b.literals@),
    );
}

/// Equivalent guarantee lists build the very same result: the constraint
/// map is blind to the order the engine's analysis listed each literal set.
pub proof fn lemma_build_respects_equiv(
    a: Seq<FilterGuarantee>,
    b: Seq<FilterGuarantee>,
    t: TableDefinition,
)
    requires
        guarantees_equiv(a, b),
    ensures
        build_entries(a, t) == build_entries(b, t),
    decreases a.len(),
{
    if a.len() > 0 {
        assert(guarantees_equiv(a.drop_last(), b.drop_last())) by {
            assert forall|i: int|
                0 <= i < a.drop_last().len() implies guarantee_equiv(
                #[trigger] a.drop_last()[i],
                #[trigger] b.drop_last()[i],
            ) by {
                assert(a.drop_last()[i] == a[i] && b.drop_last()[i] == b[i]);
                assert(guarantee_equiv(a[i], b[i]));
            }
        }
        lemma_build_respects_equiv(a.drop_last(), b.drop_last(), t);
        assert(guarantee_equiv(a.last(), b.last())) by {
            assert(a.last() == a[a.len() - 1] && b.last() == b[b.len() - 1]);
        }
        lemma_equiv_vacuous(a.last(), b.last());
        lemma_equiv_pred(a.last(), b.last());
        match build_entries(a.drop_last(), t) {
            Err(_) => {},
            Ok(m) => {
                assert(apply_guarantee(m, a.last(), t) == apply_guarantee(m, b.last(), t));
            },
        }
    } else {
        assert(b.len() == 0);
    }
}

/// A build error names a column the table does not have.
pub proof fn lemma_build_err_unknown(gs: Seq<FilterGuarantee>, t: TableDefinition)
    requires
        build_entries(gs, t) is Err,
    ensures
        find_column_id(t.columns@, build_entries(gs, t)->Err_0) is None,
    decreases gs.len(),
{
    if gs.len() > 0 {
        match build_entries(gs.drop_last(), t) {
            Err(_) => {
                lemma_build_err_unknown(gs.drop_last(), t);
            },
            Ok(_) => {},
        }
    }
}

} // verus!
