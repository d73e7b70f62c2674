//! The descriptor model: one immutable record per concrete type, pairing
//! a memory layout with a table of optional operations and a definition
//! of the type's structural kind (scalar, struct-like, enum-like,
//! list-like or map-like).
//!
//! Every executable descriptor type has a ghost counterpart built from
//! mathematical sequences; contracts throughout the crate speak of the
//! ghost models.

use vstd::prelude::*;

verus! {

// ------------------------------------------------------------------
// Executable descriptor types
// ------------------------------------------------------------------

/// Memory layout of a type: size and alignment in bytes.
#[derive(Clone, Copy, PartialEq, Eq, Structural, Debug)]
pub struct Layout {
    pub size: usize,
    pub align: usize,
}

/// Which optional operations a type supports. Absence of an operation
/// is not an error: it means the type does not support it.
#[derive(Clone, Copy, PartialEq, Eq, Structural, Debug)]
pub struct OpTable {
    pub has_eq: bool,
    pub has_cmp: bool,
    pub has_hash: bool,
    pub has_debug: bool,
    pub has_destroy: bool,
    pub has_default: bool,
}

/// A value-dependent rule deciding whether a field is skipped when the
/// owning value is projected for serialization.
#[derive(Clone, Copy, PartialEq, Eq, Structural, Debug)]
pub enum SkipRule {
    /// The field is always emitted.
    Never,
    /// The field is never emitted.
    Always,
    /// The field is skipped exactly when it holds the given scalar.
    IfScalarEq(u64),
}

/// Field metadata owned by a struct-like descriptor or by an enum
/// variant: a name, a byte offset within the owner, the field's own
/// descriptor, and the serialization annotations.
pub struct FieldDef {
    pub name: String,
    pub offset: usize,
    pub flatten: bool,
    pub skip: SkipRule,
    pub shape: Shape,
}

/// The definition of a struct-like type: its fields in declaration order.
pub struct StructType {
    pub fields: Vec<FieldDef>,
}

/// One variant of an enum-like type: a name and the variant's payload fields.
pub struct VariantDef {
    pub name: String,
    pub fields: Vec<FieldDef>,
}

/// The structural kind of a type, together with the descriptors of its
/// components.
pub enum Def {
    /// A plain scalar with no components.
    Scalar,
    /// A struct-like type with named fields.
    StructKind(StructType),
    /// An enum-like type: a set of variants, one active at a time.
    EnumKind(Vec<VariantDef>),
    /// A list-like type over one element descriptor.
    ListKind(Box<Shape>),
    /// A map-like type from string keys to one value descriptor.
    MapKind(Box<Shape>),
}

/// A descriptor: the per-type record every other component consumes.
/// Created once per type and never mutated.
pub struct Shape {
    pub name: String,
    pub layout: Layout,
    pub ops: OpTable,
    pub def: Def,
}

// ------------------------------------------------------------------
// Ghost models
// ------------------------------------------------------------------

/// Ghost counterpart of `FieldDef`.
#[verifier::ext_equal]
pub struct FieldModel {
    pub name: Seq<char>,
    pub offset: nat,
    pub flatten: bool,
    pub skip: SkipRule,
    pub shape: ShapeModel,
}

/// Ghost counterpart of `VariantDef`.
#[verifier::ext_equal]
pub struct VariantModel {
    pub name: Seq<char>,
    pub fields: Seq<FieldModel>,
}

/// Ghost counterpart of `Def`.
#[verifier::ext_equal]
pub enum DefModel {
    ScalarDef,
    StructDef(Seq<FieldModel>),
    EnumDef(Seq<VariantModel>),
    ListDef(Box<ShapeModel>),
    MapDef(Box<ShapeModel>),
}

/// Ghost counterpart of `Shape`.
#[verifier::ext_equal]
pub struct ShapeModel {
    pub name: Seq<char>,
    pub size: nat,
    pub align: nat,
    pub ops: OpTable,
    pub def: DefModel,
}

// ------------------------------------------------------------------
// Views from the executable types to the ghost models
// ------------------------------------------------------------------

pub open spec fn field_model(f: FieldDef) -> FieldModel
    decreases f,
{
    FieldModel {
        name: f.name@,
        offset: f.offset as nat,
        flatten: f.flatten,
        skip: f.skip,
        shape: shape_model(f.shape),
    }
}

pub open spec fn fields_model(fs: Seq<FieldDef>) -> Seq<FieldModel>
    decreases fs,
{
    if fs.len() == 0 {
        Seq::empty()
    } else {
        fields_model(fs.drop_last()).push(field_model(fs.last()))
    }
}

pub open spec fn variants_model(vs: Seq<VariantDef>) -> Seq<VariantModel>
    decreases vs,
{
    if vs.len() == 0 {
        Seq::empty()
    } else {
        variants_model(vs.drop_last()).push(
            VariantModel { name: vs.last().name@, fields: fields_model(vs.last().fields@) },
        )
    }
}

pub open spec fn shape_model(s: Shape) -> ShapeModel
    decreases s,
{
    ShapeModel {
        name: s.name@,
        size: s.layout.size as nat,
        align: s.layout.align as nat,
        ops: s.ops,
        def: match s.def {
            Def::Scalar => DefModel::ScalarDef,
            Def::StructKind(st) => DefModel::StructDef(fields_model(st.fields@)),
            Def::EnumKind(vs) => DefModel::EnumDef(variants_model(vs@)),
            Def::ListKind(b) => DefModel::ListDef(Box::new(shape_model(*b))),
            Def::MapKind(b) => DefModel::MapDef(Box::new(shape_model(*b))),
        },
    }
}

impl View for Shape {
    type V = ShapeModel;

    open spec fn view(&self) -> ShapeModel {
        shape_model(*self)
    }
}

impl View for FieldDef {
    type V = FieldModel;

    open spec fn view(&self) -> FieldModel {
        field_model(*self)
    }
}

impl View for StructType {
    type V = Seq<FieldModel>;

    open spec fn view(&self) -> Seq<FieldModel> {
        fields_model(self.fields@)
    }
}

impl View for VariantDef {
    type V = VariantModel;

    open spec fn view(&self) -> VariantModel {
        VariantModel { name: self.name@, fields: fields_model(self.fields@) }
    }
}

// ------------------------------------------------------------------
// Well-formedness of descriptors
// ------------------------------------------------------------------

/// A field lies entirely inside its owner's layout.
pub open spec fn field_fits(f: FieldModel, owner_size: nat) -> bool {
    f.offset + f.shape.size <= owner_size
}

/// Fields of nonzero size occupy pairwise disjoint byte ranges;
/// zero-size fields may share any offset, since they occupy no bytes.
pub open spec fn fields_disjoint(fs: Seq<FieldModel>) -> bool {
    forall|i: int, j: int|
        0 <= i < j < fs.len() && fs[i].shape.size > 0 && fs[j].shape.size > 0 ==> (fs[i].offset
            + fs[i].shape.size <= fs[j].offset || fs[j].offset + fs[j].shape.size <= fs[i].offset)
}

/// Every field's own type supports the equality operation.
pub open spec fn fields_support_eq(fs: Seq<FieldModel>) -> bool {
    forall|i: int| 0 <= i < fs.len() ==> fs[i].shape.ops.has_eq
}

/// Every field's own type supports the default operation.
pub open spec fn fields_support_default(fs: Seq<FieldModel>) -> bool {
    forall|i: int| 0 <= i < fs.len() ==> fs[i].shape.ops.has_default
}

pub open spec fn wf_fields(fs: Seq<FieldModel>, owner_size: nat) -> bool
    decreases fs,
{
    if fs.len() == 0 {
        true
    } else {
        wf_fields(fs.drop_last(), owner_size) && field_fits(fs.last(), owner_size) && wf_shape(
            fs.last().shape,
        )
    }
}

pub open spec fn wf_variants(vs: Seq<VariantModel>, owner_size: nat) -> bool
    decreases vs,
{
    if vs.len() == 0 {
        true
    } else {
        wf_variants(vs.drop_last(), owner_size) && wf_fields(vs.last().fields, owner_size)
            && fields_disjoint(vs.last().fields)
    }
}

/// A descriptor is well formed when its fields fit its layout, fields of
/// nonzero size do not overlap, every component descriptor is well
/// formed in turn, and the operation table is composed from the
/// components: a composite supports an operation only when its
/// components do. Ordering is supported by scalars and, by element-wise
/// delegation, by lists; the other kinds do not order.
pub open spec fn wf_shape(s: ShapeModel) -> bool
    decreases s,
{
    match s.def {
        DefModel::ScalarDef => true,
        DefModel::StructDef(fs) => wf_fields(fs, s.size) && fields_disjoint(fs) && (s.ops.has_eq
            ==> fields_support_eq(fs)) && (s.ops.has_default ==> fields_support_default(fs))
            && !s.ops.has_cmp,
        DefModel::EnumDef(vs) => wf_variants(vs, s.size) && (s.ops.has_eq ==> forall|i: int|
            0 <= i < vs.len() ==> fields_support_eq(vs[i].fields)) && (s.ops.has_default ==> vs.len()
            > 0 && fields_support_default(vs[0].fields)) && !s.ops.has_cmp,
        DefModel::ListDef(e) => wf_shape(*e) && (s.ops.has_eq ==> e.ops.has_eq) && (s.ops.has_cmp
            ==> e.ops.has_cmp),
        DefModel::MapDef(v) => wf_shape(*v) && (s.ops.has_eq ==> v.ops.has_eq) && !s.ops.has_cmp,
    }
}

/// Unfolds `wf_fields` to a statement about every field at once.
pub proof fn lemma_wf_fields(fs: Seq<FieldModel>, owner_size: nat)
    requires
        wf_fields(fs, owner_size),
    ensures
        forall|i: int| 0 <= i < fs.len() ==> field_fits(#[trigger] fs[i], owner_size),
        forall|i: int| 0 <= i < fs.len() ==> wf_shape(#[trigger] fs[i].shape),
    decreases fs,
{
    if fs.len() > 0 {
        lemma_wf_fields(fs.drop_last(), owner_size);
        assert forall|i: int| 0 <= i < fs.len() implies field_fits(#[trigger] fs[i], owner_size)
            && wf_shape(fs[i].shape) by {
            if i < fs.len() - 1 {
                assert(fs.drop_last()[i] == fs[i]);
            } else {
                assert(fs[i] == fs.last());
            }
        }
    }
}

/// Unfolds `wf_variants` to a statement about every variant at once.
pub proof fn lemma_wf_variants(vs: Seq<VariantModel>, owner_size: nat)
    requires
        wf_variants(vs, owner_size),
    ensures
        forall|i: int| 0 <= i < vs.len() ==> wf_fields(#[trigger] vs[i].fields, owner_size),
        forall|i: int| 0 <= i < vs.len() ==> fields_disjoint(#[trigger] vs[i].fields),
    decreases vs,
{
    if vs.len() > 0 {
        lemma_wf_variants(vs.drop_last(), owner_size);
        assert forall|i: int| 0 <= i < vs.len() implies wf_fields(#[trigger] vs[i].fields, owner_size)
            && fields_disjoint(vs[i].fields) by {
            if i < vs.len() - 1 {
                assert(vs.drop_last()[i] == vs[i]);
            } else {
                assert(vs[i] == vs.last());
            }
        }
    }
}

/// The model of a field sequence is the field-wise model.
pub proof fn lemma_fields_model(fs: Seq<FieldDef>)
    ensures
        fields_model(fs).len() == fs.len(),
        forall|i: int| 0 <= i < fs.len() ==> fields_model(fs)[i] == field_model(fs[i]),
    decreases fs,
{
    if fs.len() > 0 {
        lemma_fields_model(fs.drop_last());
    }
}

/// The model of a variant sequence is the variant-wise model.
pub proof fn lemma_variants_model(vs: Seq<VariantDef>)
    ensures
        variants_model(vs).len() == vs.len(),
        forall|i: int| 0 <= i < vs.len() ==> variants_model(vs)[i] == (VariantModel {
            name: vs[i].name@,
            fields: fields_model(vs[i].fields@),
        }),
    decreases vs,
{
    if vs.len() > 0 {
        lemma_variants_model(vs.drop_last());
    }
}

// ------------------------------------------------------------------
// Deep copies of descriptors
// ------------------------------------------------------------------

impl Shape {
    /// An owned copy of the descriptor with the same model.
    pub fn duplicate(&self) -> (r: Shape)
        ensures
            r@ == self@,
        decreases *self,
    {
        let name = self.name.clone();
        let def: Def = match &self.def {
            Def::Scalar => Def::Scalar,
            Def::StructKind(st) => {
                proof {
                    assert(self.def == Def::StructKind(*st));
                }
                let fs = dup_fields(&st.fields);
                proof {
                    lemma_fields_model(fs@);
                    lemma_fields_model(st.fields@);
                    assert(fields_model(fs@) =~= fields_model(st.fields@));
                }
                Def::StructKind(StructType { fields: fs })
            },
            Def::EnumKind(vs) => {
                proof {
                    assert(self.def == Def::EnumKind(*vs));
                }
                let out = dup_variants(vs);
                proof {
                    lemma_variants_model(out@);
                    lemma_variants_model(vs@);
                    assert(variants_model(out@) =~= variants_model(vs@));
                }
                Def::EnumKind(out)
            },
            Def::ListKind(b) => {
                proof {
                    assert(self.def == Def::ListKind(*b));
                }
                Def::ListKind(Box::new(b.duplicate()))
            },
            Def::MapKind(b) => {
                proof {
                    assert(self.def == Def::MapKind(*b));
                }
                Def::MapKind(Box::new(b.duplicate()))
            },
        };
        Shape { name, layout: self.layout, ops: self.ops, def }
    }
}

/// Copies every field definition of a field table.
fn dup_fields(fs: &Vec<FieldDef>) -> (r: Vec<FieldDef>)
    ensures
        r@.len() == fs@.len(),
        forall|j: int| 0 <= j < fs@.len() ==> field_model(#[trigger] r@[j]) == field_model(fs@[j]),
    decreases *fs,
{
    let n: usize = fs.len();
    let mut out: Vec<FieldDef> = Vec::new();
    let mut i: usize = 0;
    while i < n
        invariant
            n == fs.len(),
            i <= n,
            out@.len() == i,
            forall|j: int| 0 <= j < i ==> field_model(#[trigger] out@[j]) == field_model(fs@[j]),
        decreases n - i,
    {
        let f = &fs[i];
        let nf = FieldDef {
            name: f.name.clone(),
            offset: f.offset,
            flatten: f.flatten,
            skip: f.skip,
            shape: f.shape.duplicate(),
        };
        out.push(nf);
        i += 1;
    }
    out
}

/// Copies every variant definition of a variant table.
fn dup_variants(vs: &Vec<VariantDef>) -> (r: Vec<VariantDef>)
    ensures
        r@.len() == vs@.len(),
        forall|j: int| 0 <= j < vs@.len() ==> (#[trigger] r@[j]).name@ == vs@[j].name@
            && fields_model(r@[j].fields@) == fields_model(vs@[j].fields@),
    decreases *vs,
{
    let n: usize = vs.len();
    let mut out: Vec<VariantDef> = Vec::new();
    let mut i: usize = 0;
    while i < n
        invariant
            n == vs.len(),
            i <= n,
            out@.len() == i,
            forall|j: int| 0 <= j < i ==> (#[trigger] out@[j]).name@ == vs@[j].name@
                && fields_model(out@[j].fields@) == fields_model(vs@[j].fields@),
        decreases n - i,
    {
        let v = &vs[i];
        let fields = dup_fields(&v.fields);
        proof {
            lemma_fields_model(fields@);
            lemma_fields_model(v.fields@);
            assert(fields_model(fields@) =~= fields_model(v.fields@));
        }
        let nv = VariantDef { name: v.name.clone(), fields };
        out.push(nv);
        i += 1;
    }
    out
}

// ------------------------------------------------------------------
// Descriptor equality
// ------------------------------------------------------------------

/// Decides whether two descriptors are the same descriptor: equality
/// of the models. Used to type-check a value against the slot it is
/// filled into.
pub fn shape_eq(a: &Shape, b: &Shape) -> (r: bool)
    ensures
        r == (a@ == b@),
    decreases *a,
{
    if !(a.name == b.name) {
        return false;
    }
    if !(a.layout.size == b.layout.size && a.layout.align == b.layout.align) {
        return false;
    }
    if !(a.ops == b.ops) {
        return false;
    }
    match (&a.def, &b.def) {
        (Def::Scalar, Def::Scalar) => true,
        (Def::StructKind(x), Def::StructKind(y)) => {
            proof {
                assert(a.def == Def::StructKind(*x));
                assert(b.def == Def::StructKind(*y));
            }
            fields_eq(&x.fields, &y.fields)
        },
        (Def::EnumKind(x), Def::EnumKind(y)) => {
            proof {
                assert(a.def == Def::EnumKind(*x));
                assert(b.def == Def::EnumKind(*y));
                lemma_variants_model(x@);
                lemma_variants_model(y@);
            }
            let n: usize = x.len();
            if y.len() != n {
                return false;
            }
            let mut i: usize = 0;
            while i < n
                invariant
                    n == x@.len(),
                    y@.len() == n,
                    i <= n,
                    a.def == Def::EnumKind(*x),
                    b.def == Def::EnumKind(*y),
                    forall|j: int| 0 <= j < n ==> variants_model(x@)[j] == (VariantModel {
                        name: x@[j].name@,
                        fields: fields_model(x@[j].fields@),
                    }),
                    forall|j: int| 0 <= j < n ==> variants_model(y@)[j] == (VariantModel {
                        name: y@[j].name@,
                        fields: fields_model(y@[j].fields@),
                    }),
                    forall|j: int| 0 <= j < i ==> variants_model(x@)[j] == variants_model(y@)[j],
                decreases n - i,
            {
                if !(x[i].name == y[i].name) {
                    proof {
                        assert(variants_model(x@)[i as int] != variants_model(y@)[i as int]);
                    }
                    return false;
                }
                proof {
                    assert(decreases_to!(*a => a.def));
                    assert(a.def is EnumKind);
                    assert(decreases_to!(a.def => a.def->EnumKind_0));
                    assert(a.def->EnumKind_0 == *x);
                    assert(decreases_to!(*x => x@));
                    assert(decreases_to!(x@ => x@[i as int]));
                    assert(decreases_to!(x@[i as int] => x@[i as int].fields));
                    assert(decreases_to!(*a => x@[i as int].fields));
                }
                if !fields_eq(&x[i].fields, &y[i].fields) {
                    proof {
                        assert(variants_model(x@)[i as int] != variants_model(y@)[i as int]);
                    }
                    return false;
                }
                i += 1;
            }
            proof {
                assert(variants_model(x@) =~= variants_model(y@));
            }
            true
        },
        (Def::ListKind(x), Def::ListKind(y)) => {
            proof {
                assert(a.def == Def::ListKind(*x));
                assert(b.def == Def::ListKind(*y));
            }
            shape_eq(x, y)
        },
        (Def::MapKind(x), Def::MapKind(y)) => {
            proof {
                assert(a.def == Def::MapKind(*x));
                assert(b.def == Def::MapKind(*y));
            }
            shape_eq(x, y)
        },
        _ => false,
    }
}

/// Decides model equality of two field tables.
fn fields_eq(x: &Vec<FieldDef>, y: &Vec<FieldDef>) -> (r: bool)
    ensures
        r == (fields_model(x@) == fields_model(y@)),
    decreases *x,
{
    proof {
        lemma_fields_model(x@);
        lemma_fields_model(y@);
    }
    let n: usize = x.len();
    if y.len() != n {
        return false;
    }
    let mut i: usize = 0;
    while i < n
        invariant
            n == x@.len(),
            y@.len() == n,
            i <= n,
            forall|j: int| 0 <= j < n ==> fields_model(x@)[j] == field_model(x@[j]),
            forall|j: int| 0 <= j < n ==> fields_model(y@)[j] == field_model(y@[j]),
            forall|j: int| 0 <= j < i ==> fields_model(x@)[j] == fields_model(y@)[j],
        decreases n - i,
    {
        let fx = &x[i];
        let fy = &y[i];
        if !(fx.name == fy.name && fx.offset == fy.offset && fx.flatten == fy.flatten && fx.skip
            == fy.skip) {
            proof {
                assert(fields_model(x@)[i as int] != fields_model(y@)[i as int]);
            }
            return false;
        }
        if !shape_eq(&fx.shape, &fy.shape) {
            proof {
                assert(fields_model(x@)[i as int] != fields_model(y@)[i as int]);
            }
            return false;
        }
        i += 1;
    }
    proof {
        assert(fields_model(x@) =~= fields_model(y@));
    }
    true
}

} // verus!
