//! Laws relating the read accessor, the projection and the builder:
//! stated over the ghost models that the functions' own contracts use,
//! and proved once for all descriptors and values.

use vstd::prelude::*;
use crate::shape::{ShapeModel, DefModel, FieldModel, wf_shape};
use crate::value::{VModel, valid, lemma_all_fields_valid, lemma_all_elems_valid};
use crate::peek::{EntryModel, project, skip_eval};
use crate::slot::{all_required_filled, built_fields, destroyable_count};
use crate::ops::{cmp_model, Order, lemma_lex_prefix, lemma_lex_reflexive};

verus! {

/// Field round-trip: reading every field of a struct-like value and
/// filling a fresh builder of the same descriptor with exactly those
/// values lets the builder finish, and it finishes to a value equal to
/// the original (so the descriptor's equality operation, when present,
/// accepts the pair).
pub proof fn lemma_field_round_trip(s: ShapeModel, fs: Seq<FieldModel>, vs: Seq<VModel>)
    requires
        wf_shape(s),
        s.def == DefModel::StructDef(fs),
        valid(VModel::StructV(vs), s),
    ensures
        all_required_filled(Seq::new(vs.len(), |i: int| Some(vs[i])), fs),
        VModel::StructV(built_fields(Seq::new(vs.len(), |i: int| Some(vs[i])), fs))
            == VModel::StructV(vs),
{
    lemma_all_fields_valid(vs, fs);
    let sm = Seq::new(vs.len(), |i: int| Some(vs[i]));
    assert(built_fields(sm, fs) =~= vs);
}

/// No double-destroy, no leak, slot half: filling an unfilled slot
/// performs no destroy operation; filling the same slot again destroys
/// the value put there first, exactly once, when its type has a
/// destroy operation, and never otherwise. The deltas below are the
/// ones `Slot::fill` adds to a builder's destroy counter.
pub proof fn lemma_refill_destroys_once(
    before: Seq<Option<VModel>>,
    f: FieldModel,
    i: int,
    v1: VModel,
    v2: VModel,
)
    requires
        0 <= i < before.len(),
        before[i] is None,
    ensures
        fill_destroy_delta(before[i], f) == 0,
        fill_destroy_delta(before.update(i, Some(v1))[i], f) == (if f.shape.ops.has_destroy {
            1int
        } else {
            0int
        }),
{
}

/// How many destroy operations one fill of a slot in the given prior
/// state performs: one exactly when the slot was already initialized
/// and its type has a destroy operation.
pub open spec fn fill_destroy_delta(prior: Option<VModel>, f: FieldModel) -> int {
    if prior is Some && f.shape.ops.has_destroy {
        1int
    } else {
        0int
    }
}

/// No double-destroy, no leak, abandonment half: discarding a builder
/// destroys exactly the filled slots whose type has a destroy
/// operation, one operation each, and none of the unfilled ones. The
/// count below is the one `Partial::abandon` returns.
pub proof fn lemma_abandon_destroys_filled(sm: Seq<Option<VModel>>, fs: Seq<FieldModel>)
    requires
        sm.len() == fs.len(),
    ensures
        destroyable_count(sm, fs) == count_filled_destroyable(sm, fs, sm.len() as int),
    decreases sm,
{
    if sm.len() > 0 {
        lemma_abandon_destroys_filled(sm.drop_last(), fs.drop_last());
        assert forall|k: int| 0 <= k < sm.len() - 1 implies sm.drop_last()[k] == sm[k]
            && fs.drop_last()[k] == fs[k] by {}
        lemma_count_filled_frame(sm.drop_last(), fs.drop_last(), sm, fs, sm.len() - 1);
    }
}

/// The number of positions below `n` that are filled and destroyable.
pub open spec fn count_filled_destroyable(
    sm: Seq<Option<VModel>>,
    fs: Seq<FieldModel>,
    n: int,
) -> int
    decreases n,
{
    if n <= 0 {
        0
    } else {
        count_filled_destroyable(sm, fs, n - 1) + if sm[n - 1] is Some
            && fs[n - 1].shape.ops.has_destroy {
            1int
        } else {
            0int
        }
    }
}

/// Counting filled destroyable positions only reads the positions
/// below the bound.
pub proof fn lemma_count_filled_frame(
    sm1: Seq<Option<VModel>>,
    fs1: Seq<FieldModel>,
    sm2: Seq<Option<VModel>>,
    fs2: Seq<FieldModel>,
    n: int,
)
    requires
        forall|k: int| 0 <= k < n ==> sm1[k] == sm2[k] && fs1[k] == fs2[k],
    ensures
        count_filled_destroyable(sm1, fs1, n) == count_filled_destroyable(sm2, fs2, n),
    decreases n,
{
    if n > 0 {
        lemma_count_filled_frame(sm1, fs1, sm2, fs2, n - 1);
    }
}

/// Skip semantics: when no field is flatten-annotated, the projection
/// never fails and emits exactly the fields whose skip condition fails
/// against their current value, unchanged and in declaration order.
pub proof fn lemma_skip_semantics(fs: Seq<FieldModel>, vs: Seq<VModel>)
    requires
        fs.len() == vs.len(),
        forall|i: int| 0 <= i < fs.len() ==> !(#[trigger] fs[i]).flatten,
    ensures
        project(fs, vs) == Ok::<Seq<EntryModel>, Seq<char>>(kept_entries(fs, vs)),
    decreases fs,
{
    if fs.len() > 0 {
        assert forall|i: int| 0 <= i < fs.drop_first().len() implies !(
        #[trigger] fs.drop_first()[i]).flatten by {
            assert(fs.drop_first()[i] == fs[i + 1]);
        }
        lemma_skip_semantics(fs.drop_first(), vs.drop_first());
        if skip_eval(fs.first().skip, vs.first()) {
            assert(Seq::<EntryModel>::empty() + kept_entries(fs.drop_first(), vs.drop_first())
                =~= kept_entries(fs, vs));
        } else {
            assert(seq![
                EntryModel {
                    name: fs.first().name,
                    flattened: false,
                    shape: fs.first().shape,
                    value: vs.first(),
                },
            ] + kept_entries(fs.drop_first(), vs.drop_first()) =~= kept_entries(fs, vs));
        }
    }
}

/// The fields a flatten-free projection emits: each field whose skip
/// condition fails, as a single pair, in declaration order.
pub open spec fn kept_entries(fs: Seq<FieldModel>, vs: Seq<VModel>) -> Seq<EntryModel>
    decreases fs,
{
    if fs.len() == 0 || vs.len() == 0 {
        Seq::empty()
    } else if skip_eval(fs.first().skip, vs.first()) {
        kept_entries(fs.drop_first(), vs.drop_first())
    } else {
        seq![
            EntryModel {
                name: fs.first().name,
                flattened: false,
                shape: fs.first().shape,
                value: vs.first(),
            },
        ] + kept_entries(fs.drop_first(), vs.drop_first())
    }
}

/// List operation delegation, equality half: two list values of one
/// list-like descriptor are equal exactly when they have the same
/// length and their elements are equal pairwise, in order; lists of
/// different lengths are unequal regardless of content.
pub proof fn lemma_list_eq_delegates(xs: Seq<VModel>, ys: Seq<VModel>)
    ensures
        (VModel::ListV(xs) == VModel::ListV(ys)) <==> (xs.len() == ys.len() && forall|i: int|
            0 <= i < xs.len() ==> xs[i] == ys[i]),
{
    if xs.len() == ys.len() && (forall|i: int| 0 <= i < xs.len() ==> xs[i] == ys[i]) {
        assert(xs =~= ys);
    }
}

/// List operation delegation, ordering half: the ordering a list-like
/// descriptor composes from its element's ordering is lexicographic by
/// element and then by length: a value compares equal to itself, and a
/// list that is a strict prefix of another compares less than it.
pub proof fn lemma_list_cmp_delegates(
    s: ShapeModel,
    elem: ShapeModel,
    xs: Seq<VModel>,
    ys: Seq<VModel>,
)
    requires
        wf_shape(s),
        s.ops.has_cmp,
        s.def == DefModel::ListDef(Box::new(elem)),
        valid(VModel::ListV(xs), s),
        valid(VModel::ListV(ys), s),
        xs.len() < ys.len(),
        forall|i: int| 0 <= i < xs.len() ==> xs[i] == ys[i],
    ensures
        cmp_model(VModel::ListV(xs), VModel::ListV(xs), s) == Order::Equal,
        cmp_model(VModel::ListV(xs), VModel::ListV(ys), s) == Order::Less,
{
    lemma_all_elems_valid(xs, elem);
    lemma_lex_reflexive(xs, elem);
    lemma_lex_prefix(xs, ys, elem);
}

} // verus!
