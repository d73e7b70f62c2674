//! The write builder: an owner of a logically uninitialized region
//! that accepts values slot by slot, tracks which slots are filled,
//! destroys a previously filled value before overwriting it, and hands
//! the region out as a finished value only once every required slot is
//! filled. A `Slot` is a one-shot write capability into a struct field
//! or a keyed map entry.

use vstd::prelude::*;
use vstd::pervasive::unreached;
use crate::FieldError;
use crate::shape::{Shape, DefModel, FieldModel, wf_shape, shape_eq, fields_model,
    field_model, lemma_fields_model, lemma_wf_fields};
use crate::value::{Value, MapEntry, VModel, valid, value_model, values_model, entries_model,
    keys_unique, all_fields_valid, all_entries_valid, lemma_values_model, lemma_entries_model,
    lemma_all_fields_valid, lemma_all_entries_valid};
use crate::ops::{default_value, default_model, lemma_default_valid};

verus! {

/// The model of one slot: its contents when filled.
pub open spec fn opt_model(o: Option<Value>) -> Option<VModel> {
    match o {
        Some(v) => Some(value_model(v)),
        None => None,
    }
}

/// The models of a slot vector.
pub open spec fn slots_model(s: Seq<Option<Value>>) -> Seq<Option<VModel>>
    decreases s,
{
    if s.len() == 0 {
        Seq::empty()
    } else {
        slots_model(s.drop_last()).push(opt_model(s.last()))
    }
}

/// The model of a slot vector is the slot-wise model.
pub proof fn lemma_slots_model(s: Seq<Option<Value>>)
    ensures
        slots_model(s).len() == s.len(),
        forall|i: int| 0 <= i < s.len() ==> slots_model(s)[i] == opt_model(s[i]),
    decreases s,
{
    if s.len() > 0 {
        lemma_slots_model(s.drop_last());
    }
}

/// A field lacking a default operation must be filled before the
/// builder can finish.
pub open spec fn slot_required(f: FieldModel) -> bool {
    !f.shape.ops.has_default
}

/// Every required slot is filled.
pub open spec fn all_required_filled(sm: Seq<Option<VModel>>, fs: Seq<FieldModel>) -> bool {
    forall|i: int| 0 <= i < fs.len() && slot_required(#[trigger] fs[i]) ==> sm[i] is Some
}

/// The field values of the finished struct: each filled slot's
/// contents, and the field's default where a defaultable slot was left
/// unfilled.
pub open spec fn built_fields(sm: Seq<Option<VModel>>, fs: Seq<FieldModel>) -> Seq<VModel> {
    Seq::new(
        sm.len(),
        |i: int|
            match sm[i] {
                Some(v) => v,
                None => default_model(fs[i].shape),
            },
    )
}

/// How many destroy operations cleaning up the filled slots performs:
/// one per filled slot whose type has a destroy operation.
pub open spec fn destroyable_count(sm: Seq<Option<VModel>>, fs: Seq<FieldModel>) -> int
    decreases sm,
{
    if sm.len() == 0 || fs.len() == 0 {
        0
    } else {
        destroyable_count(sm.drop_last(), fs.drop_last()) + if sm.last() is Some
            && fs.last().shape.ops.has_destroy {
            1int
        } else {
            0int
        }
    }
}

/// A key is present among the entry models.
pub open spec fn has_key(es: Seq<(Seq<char>, VModel)>, k: Seq<char>) -> bool {
    exists|i: int| 0 <= i < es.len() && es[i].0 == k
}

/// The position of a present key (unique when keys are unique).
pub open spec fn key_index(es: Seq<(Seq<char>, VModel)>, k: Seq<char>) -> int {
    choose|i: int| 0 <= i < es.len() && es[i].0 == k
}

/// Where a one-shot write capability points: a struct field by index,
/// or a map entry under a string key.
pub enum SlotDest {
    FieldAt(usize),
    MapKey(String),
}

/// A one-shot write capability into a builder: the destination and the
/// descriptor the destination expects. Filling consumes the slot.
pub struct Slot {
    pub dest: SlotDest,
    pub field_shape: Shape,
}

/// The write builder: the descriptor being built, one optional value
/// per field for struct-like kinds (`None` is uninitialized), the
/// entries accepted so far for map-like kinds, and two instrumentation
/// counters: how many memory writes and how many destroy operations
/// the builder has performed.
pub struct Partial {
    pub shape: Shape,
    pub slots: Vec<Option<Value>>,
    pub entries: Vec<MapEntry>,
    pub write_count: usize,
    pub destroy_count: usize,
}

impl Partial {
    /// The field models when the built descriptor is struct-like.
    pub open spec fn fields_m(self) -> Seq<FieldModel> {
        match self.shape@.def {
            DefModel::StructDef(fs) => fs,
            _ => Seq::empty(),
        }
    }

    /// The slot models.
    pub open spec fn slots_m(self) -> Seq<Option<VModel>> {
        slots_model(self.slots@)
    }

    /// The entry models.
    pub open spec fn entries_m(self) -> Seq<(Seq<char>, VModel)> {
        entries_model(self.entries@)
    }

    /// The builder's descriptor is well formed and struct-like or
    /// map-like; every filled slot and every accepted entry holds a
    /// value of the component descriptor; map keys are distinct.
    pub open spec fn wf(self) -> bool {
        &&& wf_shape(self.shape@)
        &&& match self.shape@.def {
            DefModel::StructDef(fs) => {
                &&& self.slots@.len() == fs.len()
                &&& self.entries@.len() == 0
                &&& forall|i: int|
                    0 <= i < fs.len() ==> match #[trigger] slots_model(self.slots@)[i] {
                        Some(v) => valid(v, fs[i].shape),
                        None => true,
                    }
            },
            DefModel::MapDef(val) => {
                &&& self.slots@.len() == 0
                &&& keys_unique(entries_model(self.entries@))
                &&& all_entries_valid(entries_model(self.entries@), *val)
            },
            _ => false,
        }
    }

    /// The value the builder finishes to, once permitted.
    pub open spec fn finished_m(self) -> VModel {
        match self.shape@.def {
            DefModel::StructDef(fs) => VModel::StructV(built_fields(self.slots_m(), fs)),
            _ => VModel::MapV(self.entries_m()),
        }
    }

    /// Whether finishing is permitted: every required slot is filled.
    pub open spec fn complete(self) -> bool {
        match self.shape@.def {
            DefModel::StructDef(fs) => all_required_filled(self.slots_m(), fs),
            _ => true,
        }
    }

    /// Allocates an empty builder for a struct-like or map-like
    /// descriptor: every slot uninitialized, no entries, no writes and
    /// no destroys performed.
    pub fn allocate(shape: Shape) -> (r: Partial)
        requires
            wf_shape(shape@),
            shape@.def is StructDef || shape@.def is MapDef,
        ensures
            r.wf(),
            r.shape == shape,
            r.slots@.len() == r.fields_m().len(),
            forall|i: int| 0 <= i < r.slots@.len() ==> slots_model(r.slots@)[i] is None,
            r.entries@.len() == 0,
            r.write_count == 0,
            r.destroy_count == 0,
    {
        let nfields: usize = match &shape.def {
            crate::shape::Def::StructKind(st) => {
                proof {
                    lemma_fields_model(st.fields@);
                }
                st.fields.len()
            },
            crate::shape::Def::MapKind(_) => 0,
            _ => unreached(),
        };
        let mut slots: Vec<Option<Value>> = Vec::new();
        let mut i: usize = 0;
        while i < nfields
            invariant
                i <= nfields,
                slots@.len() == i,
                forall|j: int| 0 <= j < i ==> slots@[j] is None,
            decreases nfields - i,
        {
            slots.push(None);
            i += 1;
        }
        proof {
            lemma_slots_model(slots@);
        }
        Partial { shape, slots, entries: Vec::new(), write_count: 0, destroy_count: 0 }
    }

    /// Returns the descriptor this builder is building.
    pub fn shape_desc(&self) -> (r: &Shape)
        ensures
            *r == self.shape,
    {
        &self.shape
    }
}

impl Slot {
    /// A capability writing directly into the struct field at the
    /// given index, which expects the given descriptor.
    pub fn for_struct_field(index: usize, field_shape: Shape) -> (r: Slot)
        ensures
            r.dest == SlotDest::FieldAt(index),
            r.field_shape == field_shape,
    {
        Slot { dest: SlotDest::FieldAt(index), field_shape }
    }

    /// A capability inserting into a map under the given key; the map's
    /// value descriptor is the given one.
    pub fn for_hash_map(key: String, field_shape: Shape) -> (r: Slot)
        ensures
            r.dest == SlotDest::MapKey(key),
            r.field_shape == field_shape,
    {
        Slot { dest: SlotDest::MapKey(key), field_shape }
    }

    /// The slot points into the given builder and expects exactly the
    /// component descriptor of the destination.
    pub open spec fn fits(self, p: Partial) -> bool {
        match self.dest {
            SlotDest::FieldAt(i) => match p.shape@.def {
                DefModel::StructDef(fs) => i < fs.len() && self.field_shape@ == fs[i as int].shape,
                _ => false,
            },
            SlotDest::MapKey(_) => match p.shape@.def {
                DefModel::MapDef(val) => self.field_shape@ == *val,
                _ => false,
            },
        }
    }
}

impl Slot {
    /// Fills the destination with a value whose descriptor is
    /// `value_shape`. The value's descriptor is checked against the
    /// slot's expected descriptor: a mismatch is reported and changes
    /// nothing. On success the destination is marked initialized and
    /// holds the value; a previously initialized destination has its
    /// old value destroyed (one destroy operation, when the type has
    /// one) before the write; a zero-size destination performs no
    /// memory write but is still marked initialized. Filling consumes
    /// the slot, so it cannot be retried on the same handle.
    pub fn fill(self, p: &mut Partial, value: Value, value_shape: &Shape) -> (r: Result<
        (),
        FieldError,
    >)
        requires
            old(p).wf(),
            self.fits(*old(p)),
            wf_shape(value_shape@),
            valid(value@, value_shape@),
            old(p).write_count < usize::MAX,
            old(p).destroy_count < usize::MAX,
        ensures
            final(p).wf(),
            final(p).shape == old(p).shape,
            r is Ok <==> value_shape@ == self.field_shape@,
            r matches Err(e) ==> *final(p) == *old(p) && (e matches FieldError::ShapeMismatch {
                expected,
                actual,
            } && expected@ == self.field_shape@.name && actual@ == value_shape@.name),
            r is Ok ==> match self.dest {
                SlotDest::FieldAt(i) => {
                    &&& final(p).slots_m() == old(p).slots_m().update(i as int, Some(value@))
                    &&& final(p).entries@ == old(p).entries@
                    &&& final(p).destroy_count == old(p).destroy_count + (
                    if old(p).slots_m()[i as int] is Some && self.field_shape@.ops.has_destroy {
                        1int
                    } else {
                        0int
                    })
                    &&& final(p).write_count == old(p).write_count + (
                    if self.field_shape@.size == 0 {
                        0int
                    } else {
                        1int
                    })
                },
                SlotDest::MapKey(k) => {
                    &&& final(p).slots@ == old(p).slots@
                    &&& (if has_key(old(p).entries_m(), k@) {
                        &&& final(p).entries_m() == old(p).entries_m().update(
                            key_index(old(p).entries_m(), k@),
                            (k@, value@),
                        )
                        &&& final(p).destroy_count == old(p).destroy_count + (
                        if self.field_shape@.ops.has_destroy {
                            1int
                        } else {
                            0int
                        })
                    } else {
                        &&& final(p).entries_m() == old(p).entries_m().push((k@, value@))
                        &&& final(p).destroy_count == old(p).destroy_count
                    })
                    &&& final(p).write_count == old(p).write_count + (
                    if self.field_shape@.size == 0 {
                        0int
                    } else {
                        1int
                    })
                },
            },
    {
        if !shape_eq(value_shape, &self.field_shape) {
            return Err(
                FieldError::ShapeMismatch {
                    expected: self.field_shape.name,
                    actual: value_shape.name.clone(),
                },
            );
        }
        match &self.dest {
            SlotDest::FieldAt(index) => {
                let i: usize = *index;
                proof {
                    lemma_slots_model(p.slots@);
                }
                let was_init: bool = p.slots[i].is_some();
                if was_init && self.field_shape.ops.has_destroy {
                    p.destroy_count = p.destroy_count + 1;
                }
                if self.field_shape.layout.size > 0 {
                    p.write_count = p.write_count + 1;
                }
                let _ = p.slots.remove(i);
                p.slots.insert(i, Some(value));
                proof {
                    assert(p.slots@ =~= old(p).slots@.update(i as int, Some(value)));
                    lemma_slots_model(p.slots@);
                    assert forall|j: int| 0 <= j < p.slots@.len() implies slots_model(p.slots@)[j]
                        == slots_model(old(p).slots@).update(i as int, Some(value@))[j] by {
                        assert(slots_model(p.slots@)[j] == opt_model(p.slots@[j]));
                        assert(slots_model(old(p).slots@)[j] == opt_model(old(p).slots@[j]));
                    }
                    assert(slots_model(p.slots@) =~= slots_model(old(p).slots@).update(
                        i as int,
                        Some(value@),
                    ));
                }
                Ok(())
            },
            SlotDest::MapKey(k) => {
                let ghost em = entries_model(old(p).entries@);
                proof {
                    lemma_entries_model(p.entries@);
                }
                let n: usize = p.entries.len();
                let mut i: usize = 0;
                while i < n
                    invariant
                        *p == *old(p),
                        old(p).wf(),
                        self.fits(*old(p)),
                        wf_shape(value_shape@),
                        valid(value@, value_shape@),
                        value_shape@ == self.field_shape@,
                        old(p).write_count < usize::MAX,
                        old(p).destroy_count < usize::MAX,
                        self.dest matches SlotDest::MapKey(kk) && kk == k,
                        n == p.entries@.len(),
                        i <= n,
                        em == entries_model(p.entries@),
                        em.len() == n,
                        forall|j: int| 0 <= j < n ==> em[j] == (p.entries@[j].key@, value_model(
                            p.entries@[j].value,
                        )),
                        forall|j: int| 0 <= j < i ==> em[j].0 != k@,
                    decreases n - i,
                {
                    if p.entries[i].key == *k {
                        proof {
                            assert(em[i as int].0 == k@);
                            assert(has_key(em, k@));
                            assert(keys_unique(em));
                            assert(key_index(em, k@) == i as int) by {
                                let j = key_index(em, k@);
                                assert(0 <= j < em.len() && em[j].0 == k@);
                                if j != i as int {
                                    assert(em[j].0 != em[i as int].0);
                                }
                            }
                        }
                        if self.field_shape.ops.has_destroy {
                            p.destroy_count = p.destroy_count + 1;
                        }
                        if self.field_shape.layout.size > 0 {
                            p.write_count = p.write_count + 1;
                        }
                        let _ = p.entries.remove(i);
                        let key: String = match self.dest {
                            SlotDest::MapKey(key) => key,
                            _ => unreached(),
                        };
                        p.entries.insert(i, MapEntry { key, value });
                        proof {
                            assert(p.entries@ =~= old(p).entries@.update(
                                i as int,
                                p.entries@[i as int],
                            ));
                            lemma_entries_model(p.entries@);
                            assert forall|j: int|
                                0 <= j < p.entries@.len() implies entries_model(p.entries@)[j]
                                == em.update(i as int, (k@, value@))[j] by {
                                assert(entries_model(p.entries@)[j] == (p.entries@[j].key@,
                                value_model(p.entries@[j].value)));
                            }
                            assert(entries_model(p.entries@) =~= em.update(
                                i as int,
                                (k@, value@),
                            ));
                            let em2 = entries_model(p.entries@);
                            assert forall|j1: int, j2: int|
                                0 <= j1 < j2 < em2.len() implies em2[j1].0 != em2[j2].0 by {
                                if j1 != i as int && j2 != i as int {
                                    assert(em[j1].0 != em[j2].0);
                                } else if j1 == i as int {
                                    assert(em[j1].0 == em2[j1].0 && em[j2].0 == em2[j2].0);
                                } else {
                                    assert(em[j1].0 == em2[j1].0 && em[j2].0 == em2[j2].0);
                                }
                            }
                            lemma_all_entries_valid(em, value_shape@);
                            lemma_all_entries_valid(em2, value_shape@);
                        }
                        return Ok(());
                    }
                    i += 1;
                }
                proof {
                    assert(!has_key(em, k@));
                }
                if self.field_shape.layout.size > 0 {
                    p.write_count = p.write_count + 1;
                }
                let key: String = match self.dest {
                    SlotDest::MapKey(key) => key,
                    _ => unreached(),
                };
                p.entries.push(MapEntry { key, value });
                proof {
                    lemma_entries_model(p.entries@);
                    assert forall|j: int|
                        0 <= j < p.entries@.len() implies entries_model(p.entries@)[j] == em.push(
                        (k@, value@),
                    )[j] by {
                        assert(entries_model(p.entries@)[j] == (p.entries@[j].key@, value_model(
                            p.entries@[j].value,
                        )));
                        if j < em.len() {
                            assert(p.entries@[j] == old(p).entries@[j]);
                        }
                    }
                    assert(entries_model(p.entries@) =~= em.push((k@, value@)));
                    let em2 = entries_model(p.entries@);
                    assert forall|j1: int, j2: int|
                        0 <= j1 < j2 < em2.len() implies em2[j1].0 != em2[j2].0 by {
                        if j2 < em.len() {
                            assert(em[j1].0 != em[j2].0);
                        } else {
                            assert(em2[j2].0 == k@);
                            assert(em2[j1].0 == em[j1].0);
                        }
                    }
                    lemma_all_entries_valid(em, value_shape@);
                    lemma_all_entries_valid(em2, value_shape@);
                }
                Ok(())
            },
        }
    }
}

impl Partial {
    /// Returns a slot bound to the struct field at the given index;
    /// requesting a slot for an unknown field fails.
    pub fn slot_for_field(&self, index: usize) -> (r: Result<Slot, FieldError>)
        requires
            self.wf(),
            self.shape@.def is StructDef,
        ensures
            r is Ok <==> index < self.fields_m().len(),
            r matches Ok(sl) ==> sl.dest == SlotDest::FieldAt(index) && sl.field_shape@
                == self.fields_m()[index as int].shape && sl.fits(*self),
            r matches Err(e) ==> e is NoSuchField,
    {
        match &self.shape.def {
            crate::shape::Def::StructKind(st) => {
                proof {
                    lemma_fields_model(st.fields@);
                }
                if index < st.fields.len() {
                    Ok(
                        Slot {
                            dest: SlotDest::FieldAt(index),
                            field_shape: st.fields[index].shape.duplicate(),
                        },
                    )
                } else {
                    Err(FieldError::NoSuchField)
                }
            },
            _ => unreached(),
        }
    }

    /// Returns a slot bound to the first struct field carrying the
    /// given name; requesting a slot for an unknown field fails.
    pub fn slot_for_field_named(&self, name: &String) -> (r: Result<Slot, FieldError>)
        requires
            self.wf(),
            self.shape@.def is StructDef,
        ensures
            r is Ok <==> exists|i: int|
                0 <= i < self.fields_m().len() && #[trigger] self.fields_m()[i].name == name@,
            r matches Ok(sl) ==> exists|i: int|
                {
                    &&& 0 <= i < self.fields_m().len()
                    &&& (#[trigger] self.fields_m()[i]).name == name@
                    &&& forall|j: int| 0 <= j < i ==> self.fields_m()[j].name != name@
                    &&& sl.dest == SlotDest::FieldAt(i as usize)
                    &&& sl.field_shape@ == self.fields_m()[i].shape
                    &&& sl.fits(*self)
                },
            r matches Err(e) ==> e is NoSuchField,
    {
        match &self.shape.def {
            crate::shape::Def::StructKind(st) => {
                proof {
                    lemma_fields_model(st.fields@);
                }
                let n: usize = st.fields.len();
                let mut i: usize = 0;
                while i < n
                    invariant
                        self.wf(),
                        self.shape@.def is StructDef,
                        self.shape.def == crate::shape::Def::StructKind(*st),
                        n == st.fields@.len(),
                        i <= n,
                        self.fields_m().len() == n,
                        forall|j: int| 0 <= j < n ==> self.fields_m()[j] == field_model(
                            st.fields@[j],
                        ),
                        forall|j: int| 0 <= j < i ==> self.fields_m()[j].name != name@,
                    decreases n - i,
                {
                    if st.fields[i].name == *name {
                        proof {
                            assert(self.fields_m()[i as int].name == name@);
                        }
                        return Ok(
                            Slot {
                                dest: SlotDest::FieldAt(i),
                                field_shape: st.fields[i].shape.duplicate(),
                            },
                        );
                    }
                    i += 1;
                }
                Err(FieldError::NoSuchField)
            },
            _ => unreached(),
        }
    }

    /// Finishes the builder into a value, permitted only once every
    /// field lacking a default is filled; a defaultable unfilled field
    /// receives its type's default. Fails naming the first unfilled
    /// required field. Finishing consumes the builder, so a finished
    /// region is handed out exactly once.
    pub fn build(self) -> (r: Result<Value, FieldError>)
        requires
            self.wf(),
        ensures
            r is Ok <==> self.complete(),
            r matches Ok(v) ==> v@ == self.finished_m() && valid(v@, self.shape@),
            r matches Err(e) ==> e matches FieldError::UninitializedField(nm) && exists|i: int|
                {
                    &&& 0 <= i < self.fields_m().len()
                    &&& slot_required(#[trigger] self.fields_m()[i])
                    &&& self.slots_m()[i] is None
                    &&& nm@ == self.fields_m()[i].name
                    &&& forall|j: int|
                        0 <= j < i ==> !(slot_required(self.fields_m()[j]) && self.slots_m()[j]
                            is None)
                },
    {
        match &self.shape.def {
            crate::shape::Def::StructKind(st) => {
                let ghost fs = self.fields_m();
                let ghost sm = self.slots_m();
                proof {
                    lemma_fields_model(st.fields@);
                    lemma_slots_model(self.slots@);
                    lemma_wf_fields(fs, self.shape@.size);
                }
                let n: usize = self.slots.len();
                let mut i: usize = 0;
                while i < n
                    invariant
                        self.wf(),
                        self.shape.def == crate::shape::Def::StructKind(*st),
                        fs == self.fields_m(),
                        sm == self.slots_m(),
                        n == self.slots@.len(),
                        i <= n,
                        fs.len() == n,
                        sm.len() == n,
                        st.fields@.len() == n,
                        forall|j: int| 0 <= j < n ==> fs[j] == field_model(st.fields@[j]),
                        forall|j: int| 0 <= j < n ==> sm[j] == opt_model(self.slots@[j]),
                        forall|j: int| 0 <= j < i ==> !(slot_required(fs[j]) && sm[j] is None),
                    decreases n - i,
                {
                    if !self.slots[i].is_some() && !st.fields[i].shape.ops.has_default {
                        proof {
                            assert(slot_required(fs[i as int]) && sm[i as int] is None);
                        }
                        return Err(FieldError::UninitializedField(st.fields[i].name.clone()));
                    }
                    i += 1;
                }
                let mut out: Vec<Value> = Vec::new();
                let mut j: usize = 0;
                while j < n
                    invariant
                        self.wf(),
                        self.shape.def == crate::shape::Def::StructKind(*st),
                        fs == self.fields_m(),
                        sm == self.slots_m(),
                        n == self.slots@.len(),
                        j <= n,
                        fs.len() == n,
                        sm.len() == n,
                        st.fields@.len() == n,
                        forall|k: int| 0 <= k < n ==> fs[k] == field_model(st.fields@[k]),
                        forall|k: int| 0 <= k < n ==> sm[k] == opt_model(self.slots@[k]),
                        forall|k: int| 0 <= k < n ==> !(slot_required(fs[k]) && sm[k] is None),
                        forall|k: int| 0 <= k < n ==> wf_shape(#[trigger] fs[k].shape),
                        forall|k: int| 0 <= k < n ==> match #[trigger] sm[k] {
                            Some(v) => valid(v, fs[k].shape),
                            None => true,
                        },
                        out@.len() == j,
                        forall|k: int| 0 <= k < j ==> value_model(out@[k]) == built_fields(sm, fs)[k],
                    decreases n - j,
                {
                    match &self.slots[j] {
                        Some(v) => {
                            proof {
                                assert(sm[j as int] == opt_model(self.slots@[j as int]));
                            }
                            out.push(v.duplicate());
                        },
                        None => {
                            proof {
                                assert(sm[j as int] is None);
                                assert(!slot_required(fs[j as int]));
                            }
                            out.push(default_value(&st.fields[j].shape));
                        },
                    }
                    j += 1;
                }
                proof {
                    lemma_values_model(out@);
                    assert(values_model(out@) =~= built_fields(sm, fs));
                    assert forall|k: int| 0 <= k < n implies valid(
                        #[trigger] built_fields(sm, fs)[k],
                        fs[k].shape,
                    ) by {
                        match sm[k] {
                            Some(_) => {},
                            None => {
                                lemma_default_valid(fs[k].shape);
                            },
                        }
                    }
                    lemma_all_fields_valid(built_fields(sm, fs), fs);
                }
                Ok(Value::StructVal(out))
            },
            crate::shape::Def::MapKind(_) => {
                proof {
                    assert(self.complete());
                }
                Ok(Value::MapVal(self.entries))
            },
            _ => unreached(),
        }
    }

    /// Discards the builder, destroying exactly the filled slots (or
    /// all accepted entries) whose type has a destroy operation, and
    /// touching no uninitialized slot. Returns how many destroy
    /// operations the cleanup performed.
    pub fn abandon(self) -> (destroyed: usize)
        requires
            self.wf(),
        ensures
            self.shape@.def matches DefModel::StructDef(fs) ==> destroyed as int
                == destroyable_count(self.slots_m(), fs),
            self.shape@.def matches DefModel::MapDef(val) ==> destroyed as int == (
            if val.ops.has_destroy {
                self.entries@.len() as int
            } else {
                0int
            }),
    {
        match &self.shape.def {
            crate::shape::Def::StructKind(st) => {
                let ghost fs = self.fields_m();
                let ghost sm = self.slots_m();
                proof {
                    lemma_fields_model(st.fields@);
                    lemma_slots_model(self.slots@);
                }
                let n: usize = self.slots.len();
                let mut count: usize = 0;
                let mut i: usize = 0;
                while i < n
                    invariant
                        self.wf(),
                        self.shape.def == crate::shape::Def::StructKind(*st),
                        fs == self.fields_m(),
                        sm == self.slots_m(),
                        n == self.slots@.len(),
                        i <= n,
                        fs.len() == n,
                        sm.len() == n,
                        st.fields@.len() == n,
                        forall|j: int| 0 <= j < n ==> fs[j] == field_model(st.fields@[j]),
                        forall|j: int| 0 <= j < n ==> sm[j] == opt_model(self.slots@[j]),
                        count <= i,
                        count as int == destroyable_count(
                            sm.take(i as int),
                            fs.take(i as int),
                        ),
                    decreases n - i,
                {
                    proof {
                        assert(sm.take(i as int + 1).drop_last() =~= sm.take(i as int));
                        assert(fs.take(i as int + 1).drop_last() =~= fs.take(i as int));
                        assert(sm.take(i as int + 1).last() == sm[i as int]);
                        assert(fs.take(i as int + 1).last() == fs[i as int]);
                    }
                    if self.slots[i].is_some() && st.fields[i].shape.ops.has_destroy {
                        count = count + 1;
                    }
                    i += 1;
                }
                proof {
                    assert(sm.take(n as int) =~= sm);
                    assert(fs.take(n as int) =~= fs);
                }
                count
            },
            crate::shape::Def::MapKind(vb) => {
                proof {
                    assert(self.shape.def == crate::shape::Def::MapKind(*vb));
                    assert(self.shape@.def == DefModel::MapDef(
                        Box::new(crate::shape::shape_model(**vb)),
                    ));
                }
                if vb.ops.has_destroy {
                    self.entries.len()
                } else {
                    0
                }
            },
            _ => unreached(),
        }
    }
}

impl Slot {
    /// Fills the destination from another builder: the nested builder
    /// is finished and consumed, and its value relocated into the
    /// destination under the same contract as an ordinary fill. The
    /// descriptors are checked first; filling a map entry from a
    /// builder is an unsupported destination and fails explicitly
    /// rather than dropping data.
    pub fn fill_from_partial(self, p: &mut Partial, src: Partial) -> (r: Result<(), FieldError>)
        requires
            old(p).wf(),
            self.fits(*old(p)),
            src.wf(),
            src.complete(),
            old(p).write_count < usize::MAX,
            old(p).destroy_count < usize::MAX,
        ensures
            final(p).wf(),
            final(p).shape == old(p).shape,
            r is Ok <==> (src.shape@ == self.field_shape@ && self.dest is FieldAt),
            r is Err ==> *final(p) == *old(p),
            r matches Err(e) ==> (if src.shape@ != self.field_shape@ {
                e matches FieldError::ShapeMismatch { expected, actual } && expected@
                    == self.field_shape@.name && actual@ == src.shape@.name
            } else {
                e is MapFillFromBuilder
            }),
            r is Ok ==> (self.dest matches SlotDest::FieldAt(i) && {
                &&& final(p).slots_m() == old(p).slots_m().update(
                    i as int,
                    Some(src.finished_m()),
                )
                &&& final(p).entries@ == old(p).entries@
                &&& final(p).destroy_count == old(p).destroy_count + (
                if old(p).slots_m()[i as int] is Some && self.field_shape@.ops.has_destroy {
                    1int
                } else {
                    0int
                })
                &&& final(p).write_count == old(p).write_count + (
                if self.field_shape@.size == 0 {
                    0int
                } else {
                    1int
                })
            }),
    {
        if !shape_eq(&src.shape, &self.field_shape) {
            return Err(
                FieldError::ShapeMismatch {
                    expected: self.field_shape.name,
                    actual: src.shape.name.clone(),
                },
            );
        }
        match &self.dest {
            SlotDest::MapKey(_) => Err(FieldError::MapFillFromBuilder),
            SlotDest::FieldAt(_) => {
                let src_shape = src.shape.duplicate();
                let v: Value = match src.build() {
                    Ok(v) => v,
                    Err(_) => unreached(),
                };
                self.fill(p, v, &src_shape)
            },
        }
    }
}

} // verus!
