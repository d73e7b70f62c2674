//! The value domain the engine operates on: a structured in-memory
//! representation of a region described by a descriptor. A value is
//! meaningful only together with a descriptor, and `valid` says when a
//! value inhabits a descriptor.

use vstd::prelude::*;
use crate::shape::{FieldModel, ShapeModel, DefModel};

verus! {

/// One entry of a map-like value.
pub struct MapEntry {
    pub key: String,
    pub value: Value,
}

/// A structured value: the contents of one initialized memory region,
/// read according to its descriptor's kind.
pub enum Value {
    /// The contents of a plain scalar region.
    Scalar(u64),
    /// A struct-like region: one value per field, in declaration order.
    StructVal(Vec<Value>),
    /// An enum-like region: the active variant's index and its payload
    /// fields in declaration order.
    EnumVal(usize, Vec<Value>),
    /// A list-like region: the elements in order.
    ListVal(Vec<Value>),
    /// A map-like region: entries with distinct string keys.
    MapVal(Vec<MapEntry>),
}

/// Ghost counterpart of `Value`.
#[verifier::ext_equal]
pub enum VModel {
    ScalarV(u64),
    StructV(Seq<VModel>),
    EnumV(nat, Seq<VModel>),
    ListV(Seq<VModel>),
    MapV(Seq<(Seq<char>, VModel)>),
}

// ------------------------------------------------------------------
// Views
// ------------------------------------------------------------------

pub open spec fn value_model(v: Value) -> VModel
    decreases v,
{
    match v {
        Value::Scalar(n) => VModel::ScalarV(n),
        Value::StructVal(vs) => VModel::StructV(values_model(vs@)),
        Value::EnumVal(k, vs) => VModel::EnumV(k as nat, values_model(vs@)),
        Value::ListVal(vs) => VModel::ListV(values_model(vs@)),
        Value::MapVal(es) => VModel::MapV(entries_model(es@)),
    }
}

pub open spec fn values_model(vs: Seq<Value>) -> Seq<VModel>
    decreases vs,
{
    if vs.len() == 0 {
        Seq::empty()
    } else {
        values_model(vs.drop_last()).push(value_model(vs.last()))
    }
}

pub open spec fn entries_model(es: Seq<MapEntry>) -> Seq<(Seq<char>, VModel)>
    decreases es,
{
    if es.len() == 0 {
        Seq::empty()
    } else {
        entries_model(es.drop_last()).push((es.last().key@, value_model(es.last().value)))
    }
}

impl View for Value {
    type V = VModel;

    open spec fn view(&self) -> VModel {
        value_model(*self)
    }
}

impl View for MapEntry {
    type V = (Seq<char>, VModel);

    open spec fn view(&self) -> (Seq<char>, VModel) {
        (self.key@, value_model(self.value))
    }
}

/// The model of a value sequence is the element-wise model.
pub proof fn lemma_values_model(vs: Seq<Value>)
    ensures
        values_model(vs).len() == vs.len(),
        forall|i: int| 0 <= i < vs.len() ==> values_model(vs)[i] == value_model(vs[i]),
    decreases vs,
{
    if vs.len() > 0 {
        lemma_values_model(vs.drop_last());
    }
}

/// The model of an entry sequence is the entry-wise model.
pub proof fn lemma_entries_model(es: Seq<MapEntry>)
    ensures
        entries_model(es).len() == es.len(),
        forall|i: int| 0 <= i < es.len() ==> entries_model(es)[i] == (es[i].key@, value_model(
            es[i].value,
        )),
    decreases es,
{
    if es.len() > 0 {
        lemma_entries_model(es.drop_last());
    }
}

// ------------------------------------------------------------------
// Validity: when a value inhabits a descriptor
// ------------------------------------------------------------------

/// Map keys are pairwise distinct.
pub open spec fn keys_unique(es: Seq<(Seq<char>, VModel)>) -> bool {
    forall|i: int, j: int| 0 <= i < j < es.len() ==> es[i].0 != es[j].0
}

pub open spec fn all_fields_valid(vs: Seq<VModel>, fs: Seq<FieldModel>) -> bool
    decreases vs,
{
    if vs.len() != fs.len() {
        false
    } else if vs.len() == 0 {
        true
    } else {
        all_fields_valid(vs.drop_last(), fs.drop_last()) && valid(vs.last(), fs.last().shape)
    }
}

pub open spec fn all_elems_valid(vs: Seq<VModel>, elem: ShapeModel) -> bool
    decreases vs,
{
    if vs.len() == 0 {
        true
    } else {
        all_elems_valid(vs.drop_last(), elem) && valid(vs.last(), elem)
    }
}

pub open spec fn all_entries_valid(es: Seq<(Seq<char>, VModel)>, val: ShapeModel) -> bool
    decreases es,
{
    if es.len() == 0 {
        true
    } else {
        all_entries_valid(es.drop_last(), val) && valid(es.last().1, val)
    }
}

/// A value inhabits a descriptor when its structure matches the
/// descriptor's kind, component-wise, and map keys are distinct.
pub open spec fn valid(v: VModel, s: ShapeModel) -> bool
    decreases v,
{
    match s.def {
        DefModel::ScalarDef => v is ScalarV,
        DefModel::StructDef(fs) => v matches VModel::StructV(vs) && all_fields_valid(vs, fs),
        DefModel::EnumDef(variants) => v matches VModel::EnumV(k, vs) && k < variants.len()
            && all_fields_valid(vs, variants[k as int].fields),
        DefModel::ListDef(e) => v matches VModel::ListV(vs) && all_elems_valid(vs, *e),
        DefModel::MapDef(val) => v matches VModel::MapV(es) && keys_unique(es)
            && all_entries_valid(es, *val),
    }
}

/// Unfolds `all_fields_valid` to a statement about every field at once.
pub proof fn lemma_all_fields_valid(vs: Seq<VModel>, fs: Seq<FieldModel>)
    ensures
        all_fields_valid(vs, fs) <==> (vs.len() == fs.len() && forall|i: int|
            0 <= i < vs.len() ==> valid(#[trigger] vs[i], fs[i].shape)),
    decreases vs,
{
    if vs.len() == fs.len() && vs.len() > 0 {
        lemma_all_fields_valid(vs.drop_last(), fs.drop_last());
        if all_fields_valid(vs, fs) {
            assert forall|i: int| 0 <= i < vs.len() implies valid(#[trigger] vs[i], fs[i].shape) by {
                if i < vs.len() - 1 {
                    assert(vs.drop_last()[i] == vs[i]);
                    assert(fs.drop_last()[i] == fs[i]);
                } else {
                    assert(vs[i] == vs.last());
                    assert(fs[i] == fs.last());
                }
            }
        }
        if forall|i: int| 0 <= i < vs.len() ==> valid(#[trigger] vs[i], fs[i].shape) {
            assert forall|i: int|
                0 <= i < vs.drop_last().len() implies valid(
                #[trigger] vs.drop_last()[i],
                fs.drop_last()[i].shape,
            ) by {
                assert(vs.drop_last()[i] == vs[i]);
                assert(fs.drop_last()[i] == fs[i]);
            }
            assert(vs.last() == vs[vs.len() - 1]);
            assert(fs.last() == fs[fs.len() - 1]);
            assert(all_fields_valid(vs, fs));
        }
    }
}

/// Unfolds `all_elems_valid` to a statement about every element at once.
pub proof fn lemma_all_elems_valid(vs: Seq<VModel>, elem: ShapeModel)
    ensures
        all_elems_valid(vs, elem) <==> forall|i: int| 0 <= i < vs.len() ==> valid(
            #[trigger] vs[i],
            elem,
        ),
    decreases vs,
{
    if vs.len() > 0 {
        lemma_all_elems_valid(vs.drop_last(), elem);
        if all_elems_valid(vs, elem) {
            assert forall|i: int| 0 <= i < vs.len() implies valid(#[trigger] vs[i], elem) by {
                if i < vs.len() - 1 {
                    assert(vs.drop_last()[i] == vs[i]);
                } else {
                    assert(vs[i] == vs.last());
                }
            }
        }
        if forall|i: int| 0 <= i < vs.len() ==> valid(#[trigger] vs[i], elem) {
            assert forall|i: int|
                0 <= i < vs.drop_last().len() implies valid(#[trigger] vs.drop_last()[i], elem) by {
                assert(vs.drop_last()[i] == vs[i]);
            }
            assert(vs.last() == vs[vs.len() - 1]);
            assert(all_elems_valid(vs, elem));
        }
    }
}

/// Unfolds `all_entries_valid` to a statement about every entry at once.
pub proof fn lemma_all_entries_valid(es: Seq<(Seq<char>, VModel)>, val: ShapeModel)
    ensures
        all_entries_valid(es, val) <==> forall|i: int| 0 <= i < es.len() ==> valid(
            #[trigger] es[i].1,
            val,
        ),
    decreases es,
{
    if es.len() > 0 {
        lemma_all_entries_valid(es.drop_last(), val);
        if all_entries_valid(es, val) {
            assert forall|i: int| 0 <= i < es.len() implies valid(#[trigger] es[i].1, val) by {
                if i < es.len() - 1 {
                    assert(es.drop_last()[i] == es[i]);
                } else {
                    assert(es[i] == es.last());
                }
            }
        }
        if forall|i: int| 0 <= i < es.len() ==> valid(#[trigger] es[i].1, val) {
            assert forall|i: int|
                0 <= i < es.drop_last().len() implies valid(#[trigger] es.drop_last()[i].1, val) by {
                assert(es.drop_last()[i] == es[i]);
            }
            assert(es.last() == es[es.len() - 1]);
            assert(all_entries_valid(es, val));
        }
    }
}

} // verus!
