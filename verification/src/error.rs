//! The error values that the engine returns.
//!
//! Every failure is an ordinary value handed back to the caller; nothing is
//! thrown.  Building a tree aborts on the first duplicate declaration;
//! resolution, value construction and slicing fail per expression and leave
//! everything else untouched.

use vstd::prelude::*;

verus! {

/// A coarse summary of a shape, used by [`Error::ShapeMismatch`] to name the
/// expected and the given side of a violation.
#[derive(Debug, Clone, PartialEq, Eq)]
pub enum ShapeDesc {
    /// The unit shape: no fields at all.
    Unit,
    /// A tuple or tuple-struct shape with this many positional fields.
    Tuple { arity: usize },
    /// A struct shape with this many named fields.
    Struct { fields: usize },
    /// An enum shape with this many variants.
    Enum { variants: usize },
    /// A named field, where a particular field name was expected or given.
    Field { name: String },
    /// A variant selected by index.
    Variant { index: usize },
    /// An array or a slice.
    Sequence,
    /// Any other value: a scalar, text, or a unit value.
    Scalar,
}

/// The mathematical model of a [`ShapeDesc`].
pub enum ShapeDescModel {
    Unit,
    Tuple { arity: int },
    Struct { fields: int },
    Enum { variants: int },
    Field { name: Seq<char> },
    Variant { index: int },
    Sequence,
    Scalar,
}

impl View for ShapeDesc {
    type V = ShapeDescModel;

    open spec fn view(&self) -> ShapeDescModel {
        match self {
            ShapeDesc::Unit => ShapeDescModel::Unit,
            ShapeDesc::Tuple { arity } => ShapeDescModel::Tuple { arity: *arity as int },
            ShapeDesc::Struct { fields } => ShapeDescModel::Struct { fields: *fields as int },
            ShapeDesc::Enum { variants } => ShapeDescModel::Enum { variants: *variants as int },
            ShapeDesc::Field { name } => ShapeDescModel::Field { name: name@ },
            ShapeDesc::Variant { index } => ShapeDescModel::Variant { index: *index as int },
            ShapeDesc::Sequence => ShapeDescModel::Sequence,
            ShapeDesc::Scalar => ShapeDescModel::Scalar,
        }
    }
}

/// Everything that can go wrong in the engine.
#[derive(Debug, Clone, PartialEq, Eq)]
pub enum Error {
    /// Two sibling declarations occupy the same name in the same namespace of
    /// the same module.  Fatal to that build call: no partial tree comes back.
    DuplicateDeclaration { name: String },
    /// A `super` qualifier was applied while the origin already was the crate
    /// root.
    SuperBeyondRoot,
    /// A path segment could not be found; `segment` is the first one that
    /// failed.
    UnresolvedPath { segment: String },
    /// A value under construction does not match the declared shape.
    ShapeMismatch { expected: ShapeDesc, given: ShapeDesc },
    /// A slicing request `[start, end)` fell outside a sequence of length
    /// `len`.  A single-element access reports the offset as both bounds.
    OutOfBounds { start: usize, end: usize, len: usize },
    /// A slice was read after the backing sequence it borrows from stopped
    /// covering it.
    DanglingSlice,
}

/// The mathematical model of an [`Error`].
pub enum ErrorModel {
    DuplicateDeclaration { name: Seq<char> },
    SuperBeyondRoot,
    UnresolvedPath { segment: Seq<char> },
    ShapeMismatch { expected: ShapeDescModel, given: ShapeDescModel },
    OutOfBounds { start: int, end: int, len: int },
    DanglingSlice,
}

impl View for Error {
    type V = ErrorModel;

    open spec fn view(&self) -> ErrorModel {
        match self {
            Error::DuplicateDeclaration { name } => ErrorModel::DuplicateDeclaration {
                name: name@,
            },
            Error::SuperBeyondRoot => ErrorModel::SuperBeyondRoot,
            Error::UnresolvedPath { segment } => ErrorModel::UnresolvedPath { segment: segment@ },
            Error::ShapeMismatch { expected, given } => ErrorModel::ShapeMismatch {
                expected: expected@,
                given: given@,
            },
            Error::OutOfBounds { start, end, len } => ErrorModel::OutOfBounds {
                start: *start as int,
                end: *end as int,
                len: *len as int,
            },
            Error::DanglingSlice => ErrorModel::DanglingSlice,
        }
    }
}

/// Lifts a `Result` over executable types to a `Result` over their models.
pub open spec fn result_model<T: View, E: View>(r: Result<T, E>) -> Result<T::V, E::V> {
    match r {
        Ok(t) => Ok(t@),
        Err(e) => Err(e@),
    }
}

} // verus!
