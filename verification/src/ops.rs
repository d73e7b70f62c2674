//! Generic operations dispatched through a descriptor's operation
//! table: equality and ordering. Composite kinds delegate to their
//! components; equality short-circuits on a length mismatch, and
//! ordering of lists is lexicographic by element, then by length.

use vstd::prelude::*;
use vstd::pervasive::unreached;
use crate::shape::{Shape, ShapeModel, DefModel, FieldModel, wf_shape, lemma_wf_fields,
    lemma_wf_variants, lemma_fields_model, lemma_variants_model};
use crate::value::{Value, VModel, valid, value_model, values_model, entries_model,
    lemma_values_model, lemma_entries_model, lemma_all_fields_valid, lemma_all_elems_valid,
    lemma_all_entries_valid};

verus! {

/// The result of the ordering operation.
#[derive(Clone, Copy, PartialEq, Eq, Structural, Debug)]
pub enum Order {
    Less,
    Equal,
    Greater,
}

/// Decides equality of two values of one descriptor by delegating
/// component-wise, as the descriptor's equality operation does. Two
/// values are equal exactly when their models coincide.
pub fn value_eq(a: &Value, b: &Value, s: &Shape) -> (r: bool)
    requires
        wf_shape(s@),
        s.ops.has_eq,
        valid(a@, s@),
        valid(b@, s@),
    ensures
        r == (a@ == b@),
    decreases *a,
{
    match &s.def {
        crate::shape::Def::Scalar => {
            let x: u64 = match a {
                Value::Scalar(n) => *n,
                _ => unreached(),
            };
            let y: u64 = match b {
                Value::Scalar(n) => *n,
                _ => unreached(),
            };
            x == y
        },
        crate::shape::Def::StructKind(st) => {
            let (va, vb): (&Vec<Value>, &Vec<Value>) = match (a, b) {
                (Value::StructVal(x), Value::StructVal(y)) => (x, y),
                _ => unreached(),
            };
            proof {
                assert(*a == Value::StructVal(*va));
                assert(*b == Value::StructVal(*vb));
                lemma_values_model(va@);
                lemma_values_model(vb@);
                lemma_fields_model(st.fields@);
                lemma_all_fields_valid(values_model(va@), fields_model_of(s@));
                lemma_all_fields_valid(values_model(vb@), fields_model_of(s@));
                lemma_wf_fields(fields_model_of(s@), s@.size);
            }
            let ghost fs: Seq<FieldModel> = fields_model_of(s@);
            let n: usize = va.len();
            let mut i: usize = 0;
            while i < n
                invariant
                    n == va.len(),
                    vb.len() == n,
                    st.fields.len() == n,
                    i <= n,
                    fs == fields_model_of(s@),
                    fs == crate::shape::fields_model(st.fields@),
                    s@.def == DefModel::StructDef(fs),
                    wf_shape(s@),
                    s.ops.has_eq,
                    *a == Value::StructVal(*va),
                    *b == Value::StructVal(*vb),
                    a@ == VModel::StructV(values_model(va@)),
                    b@ == VModel::StructV(values_model(vb@)),
                    fs.len() == n,
                    forall|j: int| 0 <= j < n ==> fs[j] == crate::shape::field_model(st.fields@[j]),
                    forall|j: int| 0 <= j < n ==> valid(#[trigger] values_model(va@)[j], fs[j].shape),
                    forall|j: int| 0 <= j < n ==> valid(#[trigger] values_model(vb@)[j], fs[j].shape),
                    forall|j: int| 0 <= j < n ==> values_model(va@)[j] == value_model(va@[j]),
                    forall|j: int| 0 <= j < n ==> values_model(vb@)[j] == value_model(vb@[j]),
                    forall|j: int| 0 <= j < i ==> values_model(va@)[j] == values_model(vb@)[j],
                decreases n - i,
            {
                proof {
                    lemma_wf_fields(fs, s@.size);
                    assert(fs[i as int] == crate::shape::field_model(st.fields@[i as int]));
                    assert(wf_shape(fs[i as int].shape));
                    assert(valid(values_model(va@)[i as int], fs[i as int].shape));
                    assert(valid(values_model(vb@)[i as int], fs[i as int].shape));
                }
                if !value_eq(&va[i], &vb[i], &st.fields[i].shape) {
                    proof {
                        assert(values_model(va@)[i as int] != values_model(vb@)[i as int]);
                    }
                    return false;
                }
                i += 1;
            }
            proof {
                assert(values_model(va@) =~= values_model(vb@));
            }
            true
        },
        crate::shape::Def::EnumKind(variants) => {
            let (ka, va, kb, vb): (usize, &Vec<Value>, usize, &Vec<Value>) = match (a, b) {
                (Value::EnumVal(j, x), Value::EnumVal(k, y)) => (*j, x, *k, y),
                _ => unreached(),
            };
            proof {
                assert(*a == Value::EnumVal(ka, *va));
                assert(*b == Value::EnumVal(kb, *vb));
            }
            if ka != kb {
                return false;
            }
            proof {
                lemma_values_model(va@);
                lemma_values_model(vb@);
                lemma_variants_model(variants@);
                lemma_wf_variants(variants_model_of(s@), s@.size);
                lemma_all_fields_valid(values_model(va@), variants_model_of(s@)[ka as int].fields);
                lemma_all_fields_valid(values_model(vb@), variants_model_of(s@)[ka as int].fields);
                lemma_fields_model(variants@[ka as int].fields@);
            }
            let ghost fs: Seq<FieldModel> = variants_model_of(s@)[ka as int].fields;
            let fdefs: &Vec<crate::shape::FieldDef> = &variants[ka].fields;
            let n: usize = va.len();
            let mut i: usize = 0;
            while i < n
                invariant
                    n == va.len(),
                    vb.len() == n,
                    fdefs.len() == n,
                    i <= n,
                    fs.len() == n,
                    wf_shape(s@),
                    s.ops.has_eq,
                    s@.def matches DefModel::EnumDef(vm) && 0 <= ka < vm.len() && vm[ka as int].fields
                        == fs,
                    *a == Value::EnumVal(ka, *va),
                    *b == Value::EnumVal(ka, *vb),
                    a@ == VModel::EnumV(ka as nat, values_model(va@)),
                    b@ == VModel::EnumV(ka as nat, values_model(vb@)),
                    wf_fields_pred(fs, s@.size),
                    forall|j: int| 0 <= j < n ==> fs[j] == crate::shape::field_model(fdefs@[j]),
                    forall|j: int| 0 <= j < n ==> valid(#[trigger] values_model(va@)[j], fs[j].shape),
                    forall|j: int| 0 <= j < n ==> valid(#[trigger] values_model(vb@)[j], fs[j].shape),
                    forall|j: int| 0 <= j < n ==> values_model(va@)[j] == value_model(va@[j]),
                    forall|j: int| 0 <= j < n ==> values_model(vb@)[j] == value_model(vb@[j]),
                    forall|j: int| 0 <= j < i ==> values_model(va@)[j] == values_model(vb@)[j],
                decreases n - i,
            {
                proof {
                    lemma_wf_fields(fs, s@.size);
                    assert(fs[i as int] == crate::shape::field_model(fdefs@[i as int]));
                    assert(wf_shape(fs[i as int].shape));
                    assert(valid(values_model(va@)[i as int], fs[i as int].shape));
                    assert(valid(values_model(vb@)[i as int], fs[i as int].shape));
                }
                if !value_eq(&va[i], &vb[i], &fdefs[i].shape) {
                    proof {
                        assert(values_model(va@)[i as int] != values_model(vb@)[i as int]);
                    }
                    return false;
                }
                i += 1;
            }
            proof {
                assert(values_model(va@) =~= values_model(vb@));
            }
            true
        },
        crate::shape::Def::ListKind(elem) => {
            let (va, vb): (&Vec<Value>, &Vec<Value>) = match (a, b) {
                (Value::ListVal(x), Value::ListVal(y)) => (x, y),
                _ => unreached(),
            };
            proof {
                assert(*a == Value::ListVal(*va));
                assert(*b == Value::ListVal(*vb));
                lemma_values_model(va@);
                lemma_values_model(vb@);
                lemma_all_elems_valid(values_model(va@), elem@);
                lemma_all_elems_valid(values_model(vb@), elem@);
            }
            let n: usize = va.len();
            if vb.len() != n {
                return false;
            }
            let mut i: usize = 0;
            while i < n
                invariant
                    n == va.len(),
                    vb.len() == n,
                    i <= n,
                    wf_shape(elem@),
                    elem.ops.has_eq,
                    *a == Value::ListVal(*va),
                    *b == Value::ListVal(*vb),
                    a@ == VModel::ListV(values_model(va@)),
                    b@ == VModel::ListV(values_model(vb@)),
                    forall|j: int| 0 <= j < n ==> valid(#[trigger] values_model(va@)[j], elem@),
                    forall|j: int| 0 <= j < n ==> valid(#[trigger] values_model(vb@)[j], elem@),
                    forall|j: int| 0 <= j < n ==> values_model(va@)[j] == value_model(va@[j]),
                    forall|j: int| 0 <= j < n ==> values_model(vb@)[j] == value_model(vb@[j]),
                    forall|j: int| 0 <= j < i ==> values_model(va@)[j] == values_model(vb@)[j],
                decreases n - i,
            {
                proof {
                    assert(values_model(va@)[i as int] == value_model(va@[i as int]));
                    assert(values_model(vb@)[i as int] == value_model(vb@[i as int]));
                    assert(valid(values_model(va@)[i as int], elem@));
                    assert(valid(values_model(vb@)[i as int], elem@));
                }
                if !value_eq(&va[i], &vb[i], elem) {
                    proof {
                        assert(values_model(va@)[i as int] != values_model(vb@)[i as int]);
                    }
                    return false;
                }
                i += 1;
            }
            proof {
                assert(values_model(va@) =~= values_model(vb@));
            }
            true
        },
        crate::shape::Def::MapKind(vshape) => {
            let (ea, eb): (&Vec<crate::value::MapEntry>, &Vec<crate::value::MapEntry>) = match (
                a,
                b,
            ) {
                (Value::MapVal(x), Value::MapVal(y)) => (x, y),
                _ => unreached(),
            };
            proof {
                assert(*a == Value::MapVal(*ea));
                assert(*b == Value::MapVal(*eb));
                lemma_entries_model(ea@);
                lemma_entries_model(eb@);
                lemma_all_entries_valid(entries_model(ea@), vshape@);
                lemma_all_entries_valid(entries_model(eb@), vshape@);
            }
            let n: usize = ea.len();
            if eb.len() != n {
                return false;
            }
            let mut i: usize = 0;
            while i < n
                invariant
                    n == ea.len(),
                    eb.len() == n,
                    i <= n,
                    wf_shape(vshape@),
                    vshape.ops.has_eq,
                    *a == Value::MapVal(*ea),
                    *b == Value::MapVal(*eb),
                    a@ == VModel::MapV(entries_model(ea@)),
                    b@ == VModel::MapV(entries_model(eb@)),
                    forall|j: int| 0 <= j < n ==> valid(#[trigger] entries_model(ea@)[j].1, vshape@),
                    forall|j: int| 0 <= j < n ==> valid(#[trigger] entries_model(eb@)[j].1, vshape@),
                    forall|j: int| 0 <= j < n ==> entries_model(ea@)[j] == (ea@[j].key@, value_model(
                        ea@[j].value,
                    )),
                    forall|j: int| 0 <= j < n ==> entries_model(eb@)[j] == (eb@[j].key@, value_model(
                        eb@[j].value,
                    )),
                    forall|j: int| 0 <= j < i ==> entries_model(ea@)[j] == entries_model(eb@)[j],
                decreases n - i,
            {
                if !(ea[i].key == eb[i].key) {
                    proof {
                        assert(entries_model(ea@)[i as int].0 != entries_model(eb@)[i as int].0);
                    }
                    return false;
                }
                proof {
                    assert(entries_model(ea@)[i as int] == (ea@[i as int].key@, value_model(
                        ea@[i as int].value,
                    )));
                    assert(entries_model(eb@)[i as int] == (eb@[i as int].key@, value_model(
                        eb@[i as int].value,
                    )));
                    assert(valid(entries_model(ea@)[i as int].1, vshape@));
                    assert(valid(entries_model(eb@)[i as int].1, vshape@));
                }
                if !value_eq(&ea[i].value, &eb[i].value, vshape) {
                    proof {
                        assert(entries_model(ea@)[i as int].1 != entries_model(eb@)[i as int].1);
                    }
                    return false;
                }
                i += 1;
            }
            proof {
                assert(entries_model(ea@) =~= entries_model(eb@));
            }
            true
        },
    }
}

/// The field models of a struct-like descriptor.
pub open spec fn fields_model_of(s: ShapeModel) -> Seq<FieldModel> {
    match s.def {
        DefModel::StructDef(fs) => fs,
        _ => Seq::empty(),
    }
}

/// The variant models of an enum-like descriptor.
pub open spec fn variants_model_of(s: ShapeModel) -> Seq<crate::shape::VariantModel> {
    match s.def {
        DefModel::EnumDef(vs) => vs,
        _ => Seq::empty(),
    }
}

/// Abbreviation used in loop invariants.
pub open spec fn wf_fields_pred(fs: Seq<FieldModel>, owner_size: nat) -> bool {
    crate::shape::wf_fields(fs, owner_size)
}

// ------------------------------------------------------------------
// Ordering
// ------------------------------------------------------------------

/// Ordering of two scalars.
pub open spec fn scalar_order(x: u64, y: u64) -> Order {
    if x < y {
        Order::Less
    } else if x == y {
        Order::Equal
    } else {
        Order::Greater
    }
}

/// What the ordering operation of a descriptor returns: scalars order
/// numerically; lists order lexicographically by element, then by
/// length, so a shorter list whose elements match a prefix of a longer
/// one is less. No other kind supports ordering.
pub open spec fn cmp_model(a: VModel, b: VModel, s: ShapeModel) -> Order
    decreases a,
{
    match s.def {
        DefModel::ScalarDef => match (a, b) {
            (VModel::ScalarV(x), VModel::ScalarV(y)) => scalar_order(x, y),
            _ => Order::Equal,
        },
        DefModel::ListDef(e) => match (a, b) {
            (VModel::ListV(x), VModel::ListV(y)) => lex_cmp(x, y, *e),
            _ => Order::Equal,
        },
        _ => Order::Equal,
    }
}

/// Lexicographic ordering of element sequences: the first unequal
/// element decides; a sequence that runs out first is less.
pub open spec fn lex_cmp(x: Seq<VModel>, y: Seq<VModel>, elem: ShapeModel) -> Order
    decreases x,
{
    if x.len() == 0 && y.len() == 0 {
        Order::Equal
    } else if x.len() == 0 {
        Order::Less
    } else if y.len() == 0 {
        Order::Greater
    } else {
        let c = cmp_model(x.first(), y.first(), elem);
        if c != Order::Equal {
            c
        } else {
            lex_cmp(x.drop_first(), y.drop_first(), elem)
        }
    }
}

/// Orders two values of one descriptor as the descriptor's ordering
/// operation does.
pub fn value_cmp(a: &Value, b: &Value, s: &Shape) -> (r: Order)
    requires
        wf_shape(s@),
        s.ops.has_cmp,
        valid(a@, s@),
        valid(b@, s@),
    ensures
        r == cmp_model(a@, b@, s@),
    decreases *a,
{
    match &s.def {
        crate::shape::Def::Scalar => {
            let (x, y): (u64, u64) = match (a, b) {
                (Value::Scalar(m), Value::Scalar(n)) => (*m, *n),
                _ => unreached(),
            };
            proof {
                assert(*a == Value::Scalar(x));
                assert(*b == Value::Scalar(y));
            }
            if x < y {
                Order::Less
            } else if x == y {
                Order::Equal
            } else {
                Order::Greater
            }
        },
        crate::shape::Def::ListKind(elem) => {
            let (va, vb): (&Vec<Value>, &Vec<Value>) = match (a, b) {
                (Value::ListVal(x), Value::ListVal(y)) => (x, y),
                _ => unreached(),
            };
            proof {
                assert(*a == Value::ListVal(*va));
                assert(*b == Value::ListVal(*vb));
                lemma_values_model(va@);
                lemma_values_model(vb@);
                lemma_all_elems_valid(values_model(va@), elem@);
                lemma_all_elems_valid(values_model(vb@), elem@);
            }
            let ghost xm: Seq<VModel> = values_model(va@);
            let ghost ym: Seq<VModel> = values_model(vb@);
            let na: usize = va.len();
            let nb: usize = vb.len();
            let n: usize = if na < nb {
                na
            } else {
                nb
            };
            let mut i: usize = 0;
            proof {
                assert(xm.skip(0) =~= xm);
                assert(ym.skip(0) =~= ym);
            }
            while i < n
                invariant
                    n <= na == va.len(),
                    n <= nb == vb.len(),
                    n == if na < nb { na } else { nb },
                    i <= n,
                    wf_shape(elem@),
                    elem.ops.has_cmp,
                    *a == Value::ListVal(*va),
                    *b == Value::ListVal(*vb),
                    xm == values_model(va@),
                    ym == values_model(vb@),
                    xm.len() == na,
                    ym.len() == nb,
                    forall|j: int| 0 <= j < na ==> valid(#[trigger] xm[j], elem@),
                    forall|j: int| 0 <= j < nb ==> valid(#[trigger] ym[j], elem@),
                    forall|j: int| 0 <= j < na ==> xm[j] == value_model(va@[j]),
                    forall|j: int| 0 <= j < nb ==> ym[j] == value_model(vb@[j]),
                    a@ == VModel::ListV(xm),
                    b@ == VModel::ListV(ym),
                    cmp_model(a@, b@, s@) == lex_cmp(xm, ym, elem@),
                    lex_cmp(xm.skip(i as int), ym.skip(i as int), elem@) == lex_cmp(xm, ym, elem@),
                decreases n - i,
            {
                proof {
                    assert(xm.skip(i as int).len() == na - i);
                    assert(ym.skip(i as int).len() == nb - i);
                    assert(xm.skip(i as int).first() == xm[i as int]);
                    assert(ym.skip(i as int).first() == ym[i as int]);
                }
                let c = value_cmp(&va[i], &vb[i], elem);
                if !(c == Order::Equal) {
                    return c;
                }
                proof {
                    assert(xm.skip(i as int).drop_first() =~= xm.skip(i as int + 1));
                    assert(ym.skip(i as int).drop_first() =~= ym.skip(i as int + 1));
                }
                i += 1;
            }
            proof {
                assert(xm.skip(n as int).len() == na - n);
                assert(ym.skip(n as int).len() == nb - n);
                assert(cmp_model(a@, b@, s@) == lex_cmp(xm, ym, elem@));
            }
            if na == nb {
                Order::Equal
            } else if na < nb {
                Order::Less
            } else {
                Order::Greater
            }
        },
        _ => unreached(),
    }
}

/// The ordering operation equals itself on equal operands: a value
/// compares `Equal` to itself.
pub proof fn lemma_cmp_reflexive(v: VModel, s: ShapeModel)
    requires
        wf_shape(s),
        s.ops.has_cmp,
        valid(v, s),
    ensures
        cmp_model(v, v, s) == Order::Equal,
    decreases v,
{
    match s.def {
        DefModel::ListDef(e) => {
            if let VModel::ListV(x) = v {
                lemma_all_elems_valid(x, *e);
                lemma_lex_reflexive(x, *e);
            }
        },
        _ => {},
    }
}

/// Lexicographic ordering is reflexive.
pub proof fn lemma_lex_reflexive(x: Seq<VModel>, e: ShapeModel)
    requires
        wf_shape(e),
        e.ops.has_cmp,
        forall|i: int| 0 <= i < x.len() ==> valid(#[trigger] x[i], e),
    ensures
        lex_cmp(x, x, e) == Order::Equal,
    decreases x,
{
    if x.len() > 0 {
        lemma_cmp_reflexive(x.first(), e);
        assert forall|i: int| 0 <= i < x.drop_first().len() implies valid(
            #[trigger] x.drop_first()[i],
            e,
        ) by {
            assert(x.drop_first()[i] == x[i + 1]);
        }
        lemma_lex_reflexive(x.drop_first(), e);
    }
}

/// A strict prefix orders below the longer sequence: lists order
/// lexicographically by element first, then by length.
pub proof fn lemma_lex_prefix(x: Seq<VModel>, y: Seq<VModel>, e: ShapeModel)
    requires
        wf_shape(e),
        e.ops.has_cmp,
        forall|i: int| 0 <= i < x.len() ==> valid(#[trigger] x[i], e),
        x.len() < y.len(),
        forall|i: int| 0 <= i < x.len() ==> x[i] == y[i],
    ensures
        lex_cmp(x, y, e) == Order::Less,
    decreases x,
{
    if x.len() > 0 {
        lemma_cmp_reflexive(x.first(), e);
        assert(y.first() == x.first());
        assert forall|i: int| 0 <= i < x.drop_first().len() implies valid(
            #[trigger] x.drop_first()[i],
            e,
        ) by {
            assert(x.drop_first()[i] == x[i + 1]);
        }
        assert forall|i: int| 0 <= i < x.drop_first().len() implies x.drop_first()[i]
            == y.drop_first()[i] by {
            assert(x.drop_first()[i] == x[i + 1]);
            assert(y.drop_first()[i] == y[i + 1]);
        }
        lemma_lex_prefix(x.drop_first(), y.drop_first(), e);
    }
}

// ------------------------------------------------------------------
// Defaults
// ------------------------------------------------------------------

/// The default value of each field in order.
pub open spec fn defaults_model(fs: Seq<FieldModel>) -> Seq<VModel>
    decreases fs,
{
    if fs.len() == 0 {
        Seq::empty()
    } else {
        defaults_model(fs.drop_last()).push(default_model(fs.last().shape))
    }
}

/// What the default operation of a descriptor produces: zero for
/// scalars, the field-wise default for struct-like kinds, the first
/// variant with field-wise defaults for enum-like kinds, and the empty
/// collection for lists and maps.
pub open spec fn default_model(s: ShapeModel) -> VModel
    decreases s,
{
    match s.def {
        DefModel::ScalarDef => VModel::ScalarV(0),
        DefModel::StructDef(fs) => VModel::StructV(defaults_model(fs)),
        DefModel::EnumDef(vs) => VModel::EnumV(
            0,
            if vs.len() > 0 {
                defaults_model(vs[0].fields)
            } else {
                Seq::empty()
            },
        ),
        DefModel::ListDef(_) => VModel::ListV(Seq::empty()),
        DefModel::MapDef(_) => VModel::MapV(Seq::empty()),
    }
}

/// The default sequence is field-wise.
pub proof fn lemma_defaults_model(fs: Seq<FieldModel>)
    ensures
        defaults_model(fs).len() == fs.len(),
        forall|i: int| 0 <= i < fs.len() ==> defaults_model(fs)[i] == default_model(
            #[trigger] fs[i].shape,
        ),
    decreases fs,
{
    if fs.len() > 0 {
        lemma_defaults_model(fs.drop_last());
        assert forall|i: int| 0 <= i < fs.len() implies defaults_model(fs)[i] == default_model(
            #[trigger] fs[i].shape,
        ) by {
            if i < fs.len() - 1 {
                assert(fs.drop_last()[i] == fs[i]);
            } else {
                assert(fs[i] == fs.last());
            }
        }
    }
}

/// The default of a well-formed descriptor that supports the default
/// operation inhabits that descriptor.
pub proof fn lemma_default_valid(s: ShapeModel)
    requires
        wf_shape(s),
        s.ops.has_default,
    ensures
        valid(default_model(s), s),
    decreases s,
{
    match s.def {
        DefModel::StructDef(fs) => {
            lemma_wf_fields(fs, s.size);
            lemma_defaults_valid(fs);
            lemma_all_fields_valid(defaults_model(fs), fs);
        },
        DefModel::EnumDef(vs) => {
            lemma_wf_variants(vs, s.size);
            lemma_wf_fields(vs[0].fields, s.size);
            lemma_defaults_valid(vs[0].fields);
            lemma_all_fields_valid(defaults_model(vs[0].fields), vs[0].fields);
        },
        _ => {},
    }
}

/// Field-wise version of `lemma_default_valid`.
pub proof fn lemma_defaults_valid(fs: Seq<FieldModel>)
    requires
        forall|i: int| 0 <= i < fs.len() ==> wf_shape(#[trigger] fs[i].shape),
        crate::shape::fields_support_default(fs),
    ensures
        defaults_model(fs).len() == fs.len(),
        forall|i: int| 0 <= i < fs.len() ==> valid(#[trigger] defaults_model(fs)[i], fs[i].shape),
    decreases fs,
{
    lemma_defaults_model(fs);
    assert forall|i: int| 0 <= i < fs.len() implies valid(
        #[trigger] defaults_model(fs)[i],
        fs[i].shape,
    ) by {
        lemma_default_valid(fs[i].shape);
    }
}

/// Produces the default value of a descriptor by invoking the default
/// operation the descriptor composes from its components.
pub fn default_value(s: &Shape) -> (r: Value)
    requires
        wf_shape(s@),
        s.ops.has_default,
    ensures
        r@ == default_model(s@),
        valid(r@, s@),
    decreases *s,
{
    proof {
        lemma_default_valid(s@);
    }
    match &s.def {
        crate::shape::Def::Scalar => Value::Scalar(0),
        crate::shape::Def::StructKind(st) => {
            proof {
                lemma_fields_model(st.fields@);
                lemma_wf_fields(fields_model_of(s@), s@.size);
                lemma_defaults_model(fields_model_of(s@));
            }
            let vs = default_fields(&st.fields, Ghost(s@.size));
            proof {
                lemma_values_model(vs@);
                let fm = fields_model_of(s@);
                assert forall|j: int| 0 <= j < vs@.len() implies values_model(vs@)[j]
                    == defaults_model(fm)[j] by {
                    assert(value_model(vs@[j]) == default_model(
                        crate::shape::fields_model(st.fields@)[j].shape,
                    ));
                }
                assert(values_model(vs@) =~= defaults_model(fields_model_of(s@)));
            }
            Value::StructVal(vs)
        },
        crate::shape::Def::EnumKind(variants) => {
            proof {
                lemma_variants_model(variants@);
                lemma_wf_variants(variants_model_of(s@), s@.size);
                lemma_fields_model(variants@[0].fields@);
                lemma_defaults_model(variants_model_of(s@)[0].fields);
            }
            let vs = default_fields(&variants[0].fields, Ghost(s@.size));
            proof {
                lemma_values_model(vs@);
                let fm = variants_model_of(s@)[0].fields;
                assert(fm == crate::shape::fields_model(variants@[0].fields@));
                assert forall|j: int| 0 <= j < vs@.len() implies values_model(vs@)[j]
                    == defaults_model(fm)[j] by {
                    assert(value_model(vs@[j]) == default_model(
                        crate::shape::fields_model(variants@[0].fields@)[j].shape,
                    ));
                }
                assert(values_model(vs@) =~= defaults_model(variants_model_of(s@)[0].fields));
            }
            Value::EnumVal(0, vs)
        },
        crate::shape::Def::ListKind(_) => Value::ListVal(Vec::new()),
        crate::shape::Def::MapKind(_) => Value::MapVal(Vec::new()),
    }
}

/// Produces the default value of every field in order.
fn default_fields(fs: &Vec<crate::shape::FieldDef>, owner_size: Ghost<nat>) -> (r: Vec<Value>)
    requires
        crate::shape::wf_fields(crate::shape::fields_model(fs@), owner_size@),
        crate::shape::fields_support_default(crate::shape::fields_model(fs@)),
    ensures
        r@.len() == fs@.len(),
        forall|j: int| 0 <= j < fs@.len() ==> value_model(r@[j]) == default_model(
            #[trigger] crate::shape::fields_model(fs@)[j].shape,
        ),
    decreases *fs,
{
    let ghost fm: Seq<FieldModel> = crate::shape::fields_model(fs@);
    proof {
        lemma_fields_model(fs@);
        lemma_wf_fields(fm, owner_size@);
    }
    let n: usize = fs.len();
    let mut out: Vec<Value> = Vec::new();
    let mut i: usize = 0;
    while i < n
        invariant
            n == fs.len(),
            i <= n,
            fm == crate::shape::fields_model(fs@),
            fm.len() == n,
            forall|j: int| 0 <= j < n ==> fm[j] == crate::shape::field_model(fs@[j]),
            forall|j: int| 0 <= j < n ==> wf_shape(#[trigger] fm[j].shape),
            forall|j: int| 0 <= j < n ==> #[trigger] fm[j].shape.ops.has_default,
            out@.len() == i,
            forall|j: int| 0 <= j < i ==> value_model(out@[j]) == default_model(
                #[trigger] fm[j].shape,
            ),
        decreases n - i,
    {
        proof {
            assert(fm[i as int] == crate::shape::field_model(fs@[i as int]));
            assert(wf_shape(fm[i as int].shape));
            assert(fm[i as int].shape.ops.has_default);
        }
        let v = default_value(&fs[i].shape);
        out.push(v);
        i += 1;
    }
    out
}

// ------------------------------------------------------------------
// Deep copies
// ------------------------------------------------------------------

impl Value {
    /// An owned copy of the value with the same model.
    pub fn duplicate(&self) -> (r: Value)
        ensures
            r@ == self@,
        decreases *self,
    {
        match self {
            Value::Scalar(n) => Value::Scalar(*n),
            Value::StructVal(vs) => {
                proof {
                    assert(*self == Value::StructVal(*vs));
                }
                let out = dup_values(vs);
                proof {
                    lemma_values_model(vs@);
                    lemma_values_model(out@);
                    assert(values_model(out@) =~= values_model(vs@));
                }
                Value::StructVal(out)
            },
            Value::EnumVal(k, vs) => {
                proof {
                    assert(*self == Value::EnumVal(*k, *vs));
                }
                let out = dup_values(vs);
                proof {
                    lemma_values_model(vs@);
                    lemma_values_model(out@);
                    assert(values_model(out@) =~= values_model(vs@));
                }
                Value::EnumVal(*k, out)
            },
            Value::ListVal(vs) => {
                proof {
                    assert(*self == Value::ListVal(*vs));
                }
                let out = dup_values(vs);
                proof {
                    lemma_values_model(vs@);
                    lemma_values_model(out@);
                    assert(values_model(out@) =~= values_model(vs@));
                }
                Value::ListVal(out)
            },
            Value::MapVal(es) => {
                proof {
                    assert(*self == Value::MapVal(*es));
                }
                let out = dup_entries(es);
                proof {
                    lemma_entries_model(es@);
                    lemma_entries_model(out@);
                    assert(entries_model(out@) =~= entries_model(es@));
                }
                Value::MapVal(out)
            },
        }
    }
}

/// Copies every element of a value vector.
fn dup_values(vs: &Vec<Value>) -> (r: Vec<Value>)
    ensures
        r@.len() == vs@.len(),
        forall|j: int| 0 <= j < vs@.len() ==> value_model(#[trigger] r@[j]) == value_model(vs@[j]),
    decreases *vs,
{
    let n: usize = vs.len();
    let mut out: Vec<Value> = Vec::new();
    let mut i: usize = 0;
    while i < n
        invariant
            n == vs.len(),
            i <= n,
            out@.len() == i,
            forall|j: int| 0 <= j < i ==> value_model(#[trigger] out@[j]) == value_model(vs@[j]),
        decreases n - i,
    {
        let v = vs[i].duplicate();
        out.push(v);
        i += 1;
    }
    out
}

/// Copies every entry of a map-entry vector.
fn dup_entries(es: &Vec<crate::value::MapEntry>) -> (r: Vec<crate::value::MapEntry>)
    ensures
        r@.len() == es@.len(),
        forall|j: int| 0 <= j < es@.len() ==> (#[trigger] r@[j]).key@ == es@[j].key@ && value_model(
            r@[j].value,
        ) == value_model(es@[j].value),
    decreases *es,
{
    let n: usize = es.len();
    let mut out: Vec<crate::value::MapEntry> = Vec::new();
    let mut i: usize = 0;
    while i < n
        invariant
            n == es.len(),
            i <= n,
            out@.len() == i,
            forall|j: int| 0 <= j < i ==> (#[trigger] out@[j]).key@ == es@[j].key@ && value_model(
                out@[j].value,
            ) == value_model(es@[j].value),
        decreases n - i,
    {
        let k = es[i].key.clone();
        let v = es[i].value.duplicate();
        out.push(crate::value::MapEntry { key: k, value: v });
        i += 1;
    }
    out
}

} // verus!

