//! The read accessor: a borrowed value paired with its descriptor,
//! offering generic field enumeration for struct-like kinds and the
//! serialization-oriented field projection that applies skip and
//! flatten annotations.

use vstd::prelude::*;
use vstd::pervasive::unreached;
use crate::FieldError;
use crate::shape::{Shape, StructType, ShapeModel, DefModel, FieldModel, SkipRule, wf_shape,
    fields_model, field_model, lemma_fields_model, lemma_wf_fields, lemma_variants_model,
    variants_model};
use crate::value::{Value, VModel, valid, value_model, values_model, lemma_values_model,
    lemma_all_fields_valid};

verus! {

/// A read-only generic view: borrowed memory plus its descriptor. The
/// borrow bounds the accessor's lifetime; an accessor never outlives
/// the value it reads.
pub struct Peek<'a> {
    pub value: &'a Value,
    pub shape: &'a Shape,
}

impl<'a> Clone for Peek<'a> {
    fn clone(&self) -> (r: Peek<'a>)
        ensures
            r == *self,
    {
        Peek { value: self.value, shape: self.shape }
    }
}

impl<'a> Peek<'a> {
    /// The accessor is over a well-formed descriptor and a value that
    /// inhabits it.
    pub open spec fn wf(self) -> bool {
        wf_shape(self.shape@) && valid(self.value@, self.shape@)
    }

    pub fn new(value: &'a Value, shape: &'a Shape) -> (r: Peek<'a>)
        ensures
            r.value == value,
            r.shape == shape,
    {
        Peek { value, shape }
    }

    /// Specializes the accessor to a struct-like view; answers nothing
    /// when the descriptor is not struct-like.
    pub fn into_struct(self) -> (r: Option<PeekStruct<'a>>)
        requires
            self.wf(),
        ensures
            r is Some <==> self.shape@.def is StructDef,
            r matches Some(ps) ==> ps.value == self && ps.ty@ == fields_model(ps.ty.fields@)
                && self.shape@.def == DefModel::StructDef(ps.ty@) && ps.wf(),
    {
        match &self.shape.def {
            crate::shape::Def::StructKind(st) => Some(PeekStruct { value: self, ty: st }),
            _ => None,
        }
    }
}

/// Read-only struct operations over a struct-like accessor.
pub struct PeekStruct<'a> {
    /// the underlying value
    pub value: Peek<'a>,
    /// the definition of the struct
    pub ty: &'a StructType,
}

/// One emitted pair of the serialization projection: the key to emit
/// (the field's name, or the active variant's name for a flattened
/// enum field), whether it arose from flattening, and the accessor for
/// the value to emit.
pub struct SerField<'a> {
    pub name: String,
    pub flattened: bool,
    pub peek: Peek<'a>,
}

/// Ghost counterpart of `SerField`.
#[verifier::ext_equal]
pub struct EntryModel {
    pub name: Seq<char>,
    pub flattened: bool,
    pub shape: ShapeModel,
    pub value: VModel,
}

impl<'a> View for SerField<'a> {
    type V = EntryModel;

    open spec fn view(&self) -> EntryModel {
        EntryModel {
            name: self.name@,
            flattened: self.flattened,
            shape: self.peek.shape@,
            value: self.peek.value@,
        }
    }
}

/// The emitted models of a sequence of emitted pairs.
pub open spec fn ser_model(sfs: Seq<SerField<'_>>) -> Seq<EntryModel>
    decreases sfs,
{
    if sfs.len() == 0 {
        Seq::empty()
    } else {
        ser_model(sfs.drop_last()).push(sfs.last()@)
    }
}

/// The model of an emitted sequence is the element-wise model.
pub proof fn lemma_ser_model(sfs: Seq<SerField<'_>>)
    ensures
        ser_model(sfs).len() == sfs.len(),
        forall|i: int| 0 <= i < sfs.len() ==> ser_model(sfs)[i] == sfs[i]@,
    decreases sfs,
{
    if sfs.len() > 0 {
        lemma_ser_model(sfs.drop_last());
    }
}

/// Whether a skip rule holds of a value.
pub open spec fn skip_eval(rule: SkipRule, v: VModel) -> bool {
    match rule {
        SkipRule::Never => false,
        SkipRule::Always => true,
        SkipRule::IfScalarEq(x) => v == VModel::ScalarV(x),
    }
}

/// Evaluates a field's skip annotation against its current value.
pub fn should_skip(rule: &SkipRule, v: &Value) -> (r: bool)
    ensures
        r == skip_eval(*rule, v@),
{
    match rule {
        SkipRule::Never => false,
        SkipRule::Always => true,
        SkipRule::IfScalarEq(x) => match v {
            Value::Scalar(n) => *n == *x,
            _ => false,
        },
    }
}

/// What the serialization projection emits for fields `fs` holding
/// values `vs`, or the name of the first type on which a flatten
/// annotation is not meaningful. A skipped field is dropped; a
/// flattened struct-like field is replaced by its own projection,
/// spliced in place; a flattened enum-like field is emitted as one
/// pair named after its active variant; every other field is emitted
/// singly, in declaration order.
pub open spec fn project(fs: Seq<FieldModel>, vs: Seq<VModel>) -> Result<Seq<EntryModel>, Seq<char>>
    decreases vs,
{
    if fs.len() == 0 || vs.len() == 0 {
        Ok(Seq::empty())
    } else {
        let f = fs.first();
        let v = vs.first();
        let head: Result<Seq<EntryModel>, Seq<char>> = if skip_eval(f.skip, v) {
            Ok(Seq::empty())
        } else if !f.flatten {
            Ok(
                seq![
                    EntryModel { name: f.name, flattened: false, shape: f.shape, value: v },
                ],
            )
        } else {
            match f.shape.def {
                DefModel::StructDef(nf) => match v {
                    VModel::StructV(nv) => project(nf, nv),
                    _ => Err(f.shape.name),
                },
                DefModel::EnumDef(variants) => match v {
                    VModel::EnumV(k, payload) => {
                        if k < variants.len() {
                            Ok(
                                seq![
                                    EntryModel {
                                        name: variants[k as int].name,
                                        flattened: true,
                                        shape: f.shape,
                                        value: v,
                                    },
                                ],
                            )
                        } else {
                            Err(f.shape.name)
                        }
                    },
                    _ => Err(f.shape.name),
                },
                _ => Err(f.shape.name),
            }
        };
        match head {
            Err(e) => Err(e),
            Ok(hs) => match project(fs.drop_first(), vs.drop_first()) {
                Err(e) => Err(e),
                Ok(ts) => Ok(hs + ts),
            },
        }
    }
}

/// Prepends already-emitted pairs to the outcome of the rest of a
/// projection.
pub open spec fn project_then(pre: Seq<EntryModel>, rest: Result<Seq<EntryModel>, Seq<char>>) -> Result<
    Seq<EntryModel>,
    Seq<char>,
> {
    match rest {
        Ok(ts) => Ok(pre + ts),
        Err(e) => Err(e),
    }
}

impl<'a> PeekStruct<'a> {
    /// The accessor's descriptor is struct-like with this field table,
    /// well formed, and the value inhabits it.
    pub open spec fn wf(self) -> bool {
        &&& self.value.wf()
        &&& self.value.shape@.def == DefModel::StructDef(fields_model(self.ty.fields@))
    }

    /// The field models of the struct definition.
    pub open spec fn fields_m(self) -> Seq<FieldModel> {
        fields_model(self.ty.fields@)
    }

    /// The field values of the viewed struct.
    pub open spec fn values_m(self) -> Seq<VModel> {
        match self.value.value@ {
            VModel::StructV(vs) => vs,
            _ => Seq::empty(),
        }
    }

    /// Returns the struct definition.
    pub fn ty(&self) -> (r: &StructType)
        ensures
            r == self.ty,
    {
        self.ty
    }

    /// Returns the number of fields in this struct.
    pub fn field_count(&self) -> (r: usize)
        ensures
            r == self.ty.fields@.len(),
    {
        self.ty.fields.len()
    }

    /// Returns a read accessor for the value of the field at the given
    /// index, paired with the field's own descriptor; fails exactly
    /// when the index is at or past the field count.
    pub fn field(&self, index: usize) -> (r: Result<Peek<'a>, FieldError>)
        requires
            self.wf(),
        ensures
            r is Ok <==> index < self.ty.fields@.len(),
            r matches Ok(p) ==> p.shape@ == self.fields_m()[index as int].shape && p.value@
                == self.values_m()[index as int] && p.wf(),
            r matches Err(e) ==> e matches FieldError::IndexOutOfBounds { index: i, bound } && i
                == index && bound == self.ty.fields@.len(),
    {
        proof {
            lemma_fields_model(self.ty.fields@);
            lemma_all_fields_valid(self.values_m(), self.fields_m());
            lemma_wf_fields(self.fields_m(), self.value.shape@.size);
        }
        if index < self.ty.fields.len() {
            let vs: &Vec<Value> = match self.value.value {
                Value::StructVal(vs) => vs,
                _ => unreached(),
            };
            proof {
                assert(*self.value.value == Value::StructVal(*vs));
                lemma_values_model(vs@);
            }
            Ok(Peek::new(&vs[index], &self.ty.fields[index].shape))
        } else {
            Err(
                FieldError::IndexOutOfBounds {
                    index,
                    bound: self.ty.fields.len(),
                },
            )
        }
    }

    /// Gets the accessor for the first field carrying the given name;
    /// fails exactly when no field carries it.
    pub fn field_by_name(&self, name: &String) -> (r: Result<Peek<'a>, FieldError>)
        requires
            self.wf(),
        ensures
            r is Ok <==> exists|i: int|
                0 <= i < self.fields_m().len() && #[trigger] self.fields_m()[i].name == name@,
            r matches Ok(p) ==> exists|i: int|
                {
                    &&& 0 <= i < self.fields_m().len()
                    &&& (#[trigger] self.fields_m()[i]).name == name@
                    &&& forall|j: int| 0 <= j < i ==> self.fields_m()[j].name != name@
                    &&& p.shape@ == self.fields_m()[i].shape
                    &&& p.value@ == self.values_m()[i]
                    &&& p.wf()
                },
            r matches Err(e) ==> e is NoSuchField,
    {
        proof {
            lemma_fields_model(self.ty.fields@);
        }
        let n: usize = self.ty.fields.len();
        let mut i: usize = 0;
        while i < n
            invariant
                self.wf(),
                n == self.ty.fields@.len(),
                i <= n,
                forall|j: int| 0 <= j < n ==> self.fields_m()[j] == field_model(self.ty.fields@[j]),
                self.fields_m().len() == n,
                forall|j: int| 0 <= j < i ==> self.fields_m()[j].name != name@,
            decreases n - i,
        {
            if self.ty.fields[i].name == *name {
                proof {
                    assert(self.fields_m()[i as int].name == name@);
                }
                return match self.field(i) {
                    Ok(p) => Ok(p),
                    Err(_) => unreached(),
                };
            }
            i += 1;
        }
        Err(FieldError::NoSuchField)
    }

    /// Iterates over all fields, pairing each field's metadata with a
    /// read accessor for its value, in declaration order.
    pub fn field_table(&self) -> (r: Vec<(&'a crate::shape::FieldDef, Peek<'a>)>)
        requires
            self.wf(),
        ensures
            r@.len() == self.fields_m().len(),
            forall|i: int| 0 <= i < r@.len() ==> (#[trigger] r@[i].0)@ == self.fields_m()[i]
                && r@[i].1.shape@ == self.fields_m()[i].shape && r@[i].1.value@
                == self.values_m()[i] && r@[i].1.wf(),
    {
        proof {
            lemma_fields_model(self.ty.fields@);
        }
        let n: usize = self.ty.fields.len();
        let mut out: Vec<(&'a crate::shape::FieldDef, Peek<'a>)> = Vec::new();
        let mut i: usize = 0;
        while i < n
            invariant
                self.wf(),
                n == self.ty.fields@.len(),
                i <= n,
                self.fields_m().len() == n,
                forall|j: int| 0 <= j < n ==> self.fields_m()[j] == field_model(self.ty.fields@[j]),
                out@.len() == i,
                forall|j: int| 0 <= j < i ==> (#[trigger] out@[j].0)@ == self.fields_m()[j]
                    && out@[j].1.shape@ == self.fields_m()[j].shape && out@[j].1.value@
                    == self.values_m()[j] && out@[j].1.wf(),
            decreases n - i,
        {
            let p = match self.field(i) {
                Ok(p) => p,
                Err(_) => unreached(),
            };
            out.push((&self.ty.fields[i], p));
            i += 1;
        }
        out
    }

    /// Produces the pairs a serializer should emit for this struct:
    /// skipped fields are dropped, flatten-annotated struct-like fields
    /// are spliced in place, flatten-annotated enum-like fields are
    /// emitted under their active variant's name, and every other field
    /// is emitted singly, in declaration order. Fails exactly when a
    /// flatten annotation sits on a kind it is not meaningful for,
    /// naming the first offending type.
    pub fn project_for_serialize(&self) -> (r: Result<Vec<SerField<'a>>, FieldError>)
        requires
            self.wf(),
        ensures
            r is Ok <==> project(self.fields_m(), self.values_m()) is Ok,
            r matches Ok(out) ==> project(self.fields_m(), self.values_m()) == Ok::<
                Seq<EntryModel>,
                Seq<char>,
            >(ser_model(out@)),
            r matches Err(e) ==> e matches FieldError::UnsupportedFlatten(nm) && project(
                self.fields_m(),
                self.values_m(),
            ) == Err::<Seq<EntryModel>, Seq<char>>(nm@),
        decreases *self.value.value,
    {
        let ghost fm: Seq<FieldModel> = self.fields_m();
        let ghost vm: Seq<VModel> = self.values_m();
        proof {
            lemma_fields_model(self.ty.fields@);
            lemma_all_fields_valid(vm, fm);
            lemma_wf_fields(fm, self.value.shape@.size);
        }
        let vs: &Vec<Value> = match self.value.value {
            Value::StructVal(vs) => vs,
            _ => unreached(),
        };
        proof {
            assert(*self.value.value == Value::StructVal(*vs));
            lemma_values_model(vs@);
            assert(fm.skip(0) =~= fm);
            assert(vm.skip(0) =~= vm);
        }
        let n: usize = self.ty.fields.len();
        let mut out: Vec<SerField<'a>> = Vec::new();
        let mut i: usize = 0;
        while i < n
            invariant
                self.wf(),
                n == self.ty.fields@.len(),
                i <= n,
                fm == self.fields_m(),
                vm == self.values_m(),
                fm.len() == n,
                vm.len() == n,
                *self.value.value == Value::StructVal(*vs),
                vs@.len() == n,
                forall|j: int| 0 <= j < n ==> fm[j] == field_model(self.ty.fields@[j]),
                forall|j: int| 0 <= j < n ==> vm[j] == value_model(vs@[j]),
                forall|j: int| 0 <= j < n ==> valid(#[trigger] vm[j], fm[j].shape),
                forall|j: int| 0 <= j < n ==> wf_shape(#[trigger] fm[j].shape),
                project(fm, vm) == project_then(ser_model(out@), project(fm.skip(i as int), vm.skip(i as int))),
            decreases n - i,
        {
            proof {
                assert(fm.skip(i as int).len() == n - i);
                assert(vm.skip(i as int).len() == n - i);
                assert(fm.skip(i as int).first() == fm[i as int]);
                assert(vm.skip(i as int).first() == vm[i as int]);
                assert(fm.skip(i as int).drop_first() =~= fm.skip(i as int + 1));
                assert(vm.skip(i as int).drop_first() =~= vm.skip(i as int + 1));
            }
            let f: &crate::shape::FieldDef = &self.ty.fields[i];
            let v: &Value = &vs[i];
            let ghost rest = project(fm.skip(i as int + 1), vm.skip(i as int + 1));
            let ghost pre = ser_model(out@);
            if !should_skip(&f.skip, v) {
                if !f.flatten {
                    let sf = SerField {
                        name: f.name.clone(),
                        flattened: false,
                        peek: Peek::new(v, &f.shape),
                    };
                    proof {
                        lemma_ser_model_push(out@, sf);
                        assert(sf@ == (EntryModel {
                            name: fm[i as int].name,
                            flattened: false,
                            shape: fm[i as int].shape,
                            value: vm[i as int],
                        }));
                        assert(project(fm.skip(i as int), vm.skip(i as int)) == project_then(
                            seq![sf@],
                            rest,
                        ));
                        lemma_project_then_assoc(pre, seq![sf@], rest);
                        assert(pre + seq![sf@] =~= pre.push(sf@));
                    }
                    out.push(sf);
                } else {
                    match &f.shape.def {
                        crate::shape::Def::StructKind(st) => {
                            proof {
                                assert(f.shape.def == crate::shape::Def::StructKind(*st));
                                assert(fm[i as int].shape.def == DefModel::StructDef(fields_model(
                                    st.fields@,
                                )));
                            }
                            let nested = PeekStruct { value: Peek::new(v, &f.shape), ty: st };
                            proof {
                                assert(nested.fields_m() == fields_model(st.fields@));
                                assert(nested.value.value@ == vm[i as int]);
                                assert(nested.wf());
                                assert(project(fm.skip(i as int), vm.skip(i as int)) == (match project(
                                    nested.fields_m(),
                                    nested.values_m(),
                                ) {
                                    Ok(hs) => project_then(hs, rest),
                                    Err(e) => Err(e),
                                }));
                            }
                            match nested.project_for_serialize() {
                                Ok(sub) => {
                                    proof {
                                        lemma_ser_model_concat(out@, sub@);
                                        lemma_project_then_assoc(pre, ser_model(sub@), rest);
                                    }
                                    let mut sub = sub;
                                    out.append(&mut sub);
                                },
                                Err(e) => {
                                    return Err(e);
                                },
                            }
                        },
                        crate::shape::Def::EnumKind(variants) => {
                            proof {
                                assert(f.shape.def == crate::shape::Def::EnumKind(*variants));
                                lemma_variants_model(variants@);
                                assert(fm[i as int].shape.def == DefModel::EnumDef(variants_model(
                                    variants@,
                                )));
                            }
                            let (k, payload): (usize, &Vec<Value>) = match v {
                                Value::EnumVal(k, pp) => (*k, pp),
                                _ => unreached(),
                            };
                            proof {
                                assert(*v == Value::EnumVal(k, *payload));
                                assert(vm[i as int] == VModel::EnumV(
                                    k as nat,
                                    values_model(payload@),
                                ));
                            }
                            let sf = SerField {
                                name: variants[k].name.clone(),
                                flattened: true,
                                peek: Peek::new(v, &f.shape),
                            };
                            proof {
                                lemma_ser_model_push(out@, sf);
                                assert(sf@ == (EntryModel {
                                    name: variants_model(variants@)[k as int].name,
                                    flattened: true,
                                    shape: fm[i as int].shape,
                                    value: vm[i as int],
                                }));
                                assert(project(fm.skip(i as int), vm.skip(i as int)) == project_then(
                                    seq![sf@],
                                    rest,
                                ));
                                lemma_project_then_assoc(pre, seq![sf@], rest);
                                assert(pre + seq![sf@] =~= pre.push(sf@));
                            }
                            out.push(sf);
                        },
                        _ => {
                            proof {
                                assert(project(fm.skip(i as int), vm.skip(i as int)) == Err::<
                                    Seq<EntryModel>,
                                    Seq<char>,
                                >(fm[i as int].shape.name));
                                assert(project(fm, vm) == Err::<Seq<EntryModel>, Seq<char>>(
                                    fm[i as int].shape.name,
                                ));
                            }
                            return Err(FieldError::UnsupportedFlatten(f.shape.name.clone()));
                        },
                    }
                }
            } else {
                proof {
                    assert(project(fm.skip(i as int), vm.skip(i as int)) == project_then(
                        Seq::<EntryModel>::empty(),
                        rest,
                    ));
                    lemma_project_then_assoc(pre, Seq::<EntryModel>::empty(), rest);
                    assert(pre + Seq::<EntryModel>::empty() =~= pre);
                }
            }
            i += 1;
        }
        proof {
            assert(fm.skip(n as int).len() == 0);
            assert(ser_model(out@) + Seq::<EntryModel>::empty() =~= ser_model(out@));
        }
        Ok(out)
    }
}

/// Pushing one pair extends the emitted models by its model.
pub proof fn lemma_ser_model_push(sfs: Seq<SerField<'_>>, sf: SerField<'_>)
    ensures
        ser_model(sfs.push(sf)) == ser_model(sfs).push(sf@),
{
    assert(sfs.push(sf).drop_last() =~= sfs);
    assert(sfs.push(sf).last() == sf);
}

/// Prepending twice is prepending the concatenation.
pub proof fn lemma_project_then_assoc(
    a: Seq<EntryModel>,
    b: Seq<EntryModel>,
    r: Result<Seq<EntryModel>, Seq<char>>,
)
    ensures
        project_then(a, project_then(b, r)) == project_then(a + b, r),
{
    match r {
        Ok(ts) => {
            assert(a + (b + ts) =~= (a + b) + ts);
        },
        Err(_) => {},
    }
}

/// Concatenation of pair sequences concatenates their models.
pub proof fn lemma_ser_model_concat(xs: Seq<SerField<'_>>, ys: Seq<SerField<'_>>)
    ensures
        ser_model(xs + ys) == ser_model(xs) + ser_model(ys),
    decreases ys,
{
    if ys.len() == 0 {
        assert(xs + ys =~= xs);
        assert(ser_model(xs) + ser_model(ys) =~= ser_model(xs));
    } else {
        lemma_ser_model_concat(xs, ys.drop_last());
        assert((xs + ys).drop_last() =~= xs + ys.drop_last());
        assert((xs + ys).last() == ys.last());
        assert(ser_model(xs) + ser_model(ys.drop_last()).push(ys.last()@) =~= (ser_model(xs)
            + ser_model(ys.drop_last())).push(ys.last()@));
    }
}

/// Types that offer field iteration: code can be written generically
/// over any accessor that exposes field metadata and values (the
/// struct-like accessor here; enum-like accessors plug in the same
/// way). The serialization projection is defined on top of the same
/// interface.
pub trait HasFields<'a>: Sized {
    /// The accessor is over a well-formed descriptor and a value that
    /// inhabits it.
    spec fn hf_wf(&self) -> bool;

    /// The field models the accessor iterates over.
    spec fn hf_fields(&self) -> Seq<FieldModel>;

    /// The field values the accessor iterates over.
    spec fn hf_values(&self) -> Seq<VModel>;

    /// Iterates over all fields, pairing each field's metadata with a
    /// read accessor for its value, in declaration order.
    fn fields(&self) -> (r: Vec<(&'a crate::shape::FieldDef, Peek<'a>)>)
        requires
            self.hf_wf(),
        ensures
            r@.len() == self.hf_fields().len(),
            forall|i: int| 0 <= i < r@.len() ==> (#[trigger] r@[i].0)@ == self.hf_fields()[i]
                && r@[i].1.shape@ == self.hf_fields()[i].shape && r@[i].1.value@
                == self.hf_values()[i],
    ;

    /// Iterates over the pairs a serializer should emit, applying the
    /// skip and flatten annotations.
    fn fields_for_serialize(&self) -> (r: Result<Vec<SerField<'a>>, FieldError>)
        requires
            self.hf_wf(),
        ensures
            r is Ok <==> project(self.hf_fields(), self.hf_values()) is Ok,
            r matches Ok(out) ==> project(self.hf_fields(), self.hf_values()) == Ok::<
                Seq<EntryModel>,
                Seq<char>,
            >(ser_model(out@)),
            r matches Err(e) ==> e matches FieldError::UnsupportedFlatten(nm) && project(
                self.hf_fields(),
                self.hf_values(),
            ) == Err::<Seq<EntryModel>, Seq<char>>(nm@),
    ;
}

impl<'a> HasFields<'a> for PeekStruct<'a> {
    open spec fn hf_wf(&self) -> bool {
        self.wf()
    }

    open spec fn hf_fields(&self) -> Seq<FieldModel> {
        self.fields_m()
    }

    open spec fn hf_values(&self) -> Seq<VModel> {
        self.values_m()
    }

    fn fields(&self) -> (r: Vec<(&'a crate::shape::FieldDef, Peek<'a>)>) {
        self.field_table()
    }

    fn fields_for_serialize(&self) -> (r: Result<Vec<SerField<'a>>, FieldError>) {
        self.project_for_serialize()
    }
}

} // verus!
