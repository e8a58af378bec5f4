//! A symbol-path resolution and typed-value modelling engine, of the kind a
//! source-level debugger or interpreter front-end needs in order to evaluate
//! expressions against a program built from nested modules.
//!
//! The crate is organised bottom-up:
//!
//! * [`tree`] builds an immutable tree of named module scopes from a stream of
//!   declarations, each scope holding a value namespace (functions) and a type
//!   namespace (structs and enums).
//! * [`scope`] models the stack of local bindings that exists while one
//!   expression is being evaluated.
//! * [`resolve`] turns a qualified or unqualified path into exactly one
//!   declaration or local binding, honouring `self`/`super`/root qualifiers
//!   and local-scope shadowing.
//! * [`value`] models constructible values (scalars, arrays, borrowing
//!   slices, tuples, struct/tuple-struct/enum instances) with shape-checked
//!   constructors and bounds-checked slicing.
//! * [`eval`] is the thin composition root: it resolves the path an
//!   expression names and then constructs or operates on values.
//! * [`sample`] holds a few specimen items from the kind of subject program
//!   the engine is pointed at.
//!
//! Everything is pure and single-threaded: resolution is a function of the
//! tree, the local scopes and the path, and every failure is an ordinary
//! [`error::Error`] value.

pub mod error;
pub mod eval;
pub mod resolve;
pub mod sample;
pub mod scope;
pub mod tree;
pub mod value;
