//! A type-erased reflection engine: per-type descriptors pair a memory
//! layout with a table of optional operations, read accessors walk a
//! value's fields generically, and a write builder assembles a value
//! slot by slot while tracking which slots are initialized.

use vstd::prelude::*;

pub mod laws;
pub mod ops;
pub mod peek;
pub mod shape;
pub mod slot;
pub mod value;

verus! {

/// Errors returned by field lookup, slot filling and finishing a builder.
#[derive(Debug)]
pub enum FieldError {
    /// A field or element index at or past the field count.
    IndexOutOfBounds { index: usize, bound: usize },
    /// A field name that no field of the descriptor carries.
    NoSuchField,
    /// Finishing was attempted while the named required field was unfilled.
    UninitializedField(String),
    /// A slot was filled with a value of the wrong descriptor; the two
    /// type names are carried for the caller's report.
    ShapeMismatch { expected: String, actual: String },
    /// A flatten annotation sits on a field that is neither struct-like
    /// nor enum-like; carries the offending type's name.
    UnsupportedFlatten(String),
    /// Filling a map entry from a nested builder is an unsupported
    /// destination; the operation fails rather than dropping data.
    MapFillFromBuilder,
}

} // verus!
