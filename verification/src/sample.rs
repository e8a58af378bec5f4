//! Specimen items from the kind of subject program the engine is pointed
//! at: a record with a public and a private field, a unit struct, and a
//! small arithmetic helper.  They give callers and tests concrete material
//! to model — the struct-literal and unit-value scenarios mirror these
//! declarations.

use vstd::prelude::*;

verus! {

/// A specimen record: one public and one private field, the shape the
/// struct-instance scenarios model.
#[derive(Debug, Clone, Copy, PartialEq, Eq, Structural)]
pub struct HiBob {
    pub field1: i32,
    pub field2: u64,
}

/// A specimen unit struct.
#[derive(Debug, Clone, Copy, PartialEq, Eq, Structural)]
pub struct Unit;

/// The difference of two machine integers.
pub fn diff2(x: i32, y: i32) -> (r: i32)
    requires
        i32::MIN <= x - y <= i32::MAX,
    ensures
        r == x - y,
{
    x - y
}

} // verus!
