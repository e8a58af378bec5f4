//! The typed value model: everything an expression can evaluate to.
//!
//! Values are plain owned data with one deliberate exception: a
//! [`Value::Slice`] never copies the sequence it views.  It records the
//! *place* of its backing array — the frame and slot of a local binding —
//! together with a start offset and a length, and every read goes back
//! through that place.  When the place is gone, or no longer holds an array
//! covering the requested element, the access reports
//! [`Error::DanglingSlice`](crate::error::Error) instead of reading anything.

use vstd::prelude::*;

use crate::error::Error;
use crate::error::ErrorModel;
use crate::error::ShapeDesc;
use crate::error::ShapeDescModel;
use crate::error::result_model;
use crate::scope::BindingModel;
use crate::scope::LocalScope;
use crate::tree::FieldDecl;
use crate::tree::FieldModel;
use crate::tree::TypeDecl;
use crate::tree::TypeModel;
use crate::tree::TypeShape;
use crate::tree::TypeShapeModel;
use crate::tree::VariantShape;
use crate::tree::VariantShapeModel;

verus! {

broadcast use vstd::std_specs::vec::group_vec_axioms, vstd::seq::group_seq_axioms;

/// A handle onto a type declaration: the module that owns it and the index
/// inside that module's type namespace.
#[derive(Debug, Clone, Copy, PartialEq, Eq, Structural)]
pub struct TypeRef {
    pub module: usize,
    pub index: usize,
}

/// The mathematical model of a [`TypeRef`].
pub struct TypeRefModel {
    pub module: int,
    pub index: int,
}

impl View for TypeRef {
    type V = TypeRefModel;

    open spec fn view(&self) -> TypeRefModel {
        TypeRefModel { module: self.module as int, index: self.index as int }
    }
}

/// A constructible value.
///
/// `Integer` keeps the declared width in bits, the signedness, and the raw
/// bits of the value (two's complement for signed widths).  `Str` and
/// `ByteStr` own their byte sequences.  `Slice` borrows: see the module
/// documentation.
#[derive(Debug, PartialEq, Eq)]
pub enum Value {
    /// The unit value `()`.
    Unit,
    /// An integer scalar.
    Integer { width: u32, signed: bool, magnitude: u128 },
    /// A boolean.
    Bool { val: bool },
    /// An owned text literal, kept as its bytes.
    Str { bytes: Vec<u8> },
    /// An owned byte-string literal.
    ByteStr { bytes: Vec<u8> },
    /// A single byte literal.
    Byte { val: u8 },
    /// A fixed-length array of values of uniform type.
    Array { elems: Vec<Value> },
    /// A borrowing view into the array held at local binding
    /// `(frame, slot)`: elements `start .. start + len` of that array.
    Slice { frame: usize, slot: usize, start: usize, len: usize },
    /// A heterogeneous tuple.
    Tuple { elems: Vec<Value> },
    /// An instance of a tuple struct, fields in declared order.
    TupleStruct { ty: TypeRef, args: Vec<Value> },
    /// An instance of a struct: every declared field exactly once, in
    /// declared order.
    Struct { ty: TypeRef, fields: Vec<FieldValue> },
    /// An instance of one variant of an enum.
    Enum { ty: TypeRef, variant: usize, payload: Payload },
}

/// One named field of a struct instance.
#[derive(Debug, PartialEq, Eq)]
pub struct FieldValue {
    pub name: String,
    pub value: Value,
}

/// The payload carried by an enum instance, matching the declared shape of
/// the selected variant.
#[derive(Debug, PartialEq, Eq)]
pub enum Payload {
    Unit,
    Tuple { args: Vec<Value> },
    Struct { fields: Vec<FieldValue> },
}

/// The mathematical model of a [`Value`].
pub enum ValueModel {
    Unit,
    Integer { width: int, signed: bool, magnitude: int },
    Bool { val: bool },
    Str { bytes: Seq<u8> },
    ByteStr { bytes: Seq<u8> },
    Byte { val: u8 },
    Array { elems: Seq<ValueModel> },
    Slice { frame: int, slot: int, start: int, len: int },
    Tuple { elems: Seq<ValueModel> },
    TupleStruct { ty: TypeRefModel, args: Seq<ValueModel> },
    Struct { ty: TypeRefModel, fields: Seq<FieldValueModel> },
    Enum { ty: TypeRefModel, variant: int, payload: PayloadModel },
}

/// The mathematical model of a [`FieldValue`].
pub struct FieldValueModel {
    pub name: Seq<char>,
    pub value: ValueModel,
}

/// The mathematical model of a [`Payload`].
pub enum PayloadModel {
    Unit,
    Tuple { args: Seq<ValueModel> },
    Struct { fields: Seq<FieldValueModel> },
}

/// The views of the values of `s`, in order.
pub open spec fn views_of_values(s: Seq<Value>) -> Seq<ValueModel>
    decreases s,
{
    if s.len() == 0 {
        Seq::empty()
    } else {
        views_of_values(s.drop_last()).push(s.last()@)
    }
}

/// The views of the named fields of `s`, in order.
pub open spec fn views_of_fields(s: Seq<FieldValue>) -> Seq<FieldValueModel>
    decreases s,
{
    if s.len() == 0 {
        Seq::empty()
    } else {
        views_of_fields(s.drop_last()).push(s.last()@)
    }
}

impl View for Value {
    type V = ValueModel;

    open spec fn view(&self) -> ValueModel
        decreases self,
    {
        match self {
            Value::Unit => ValueModel::Unit,
            Value::Integer { width, signed, magnitude } => ValueModel::Integer {
                width: *width as int,
                signed: *signed,
                magnitude: *magnitude as int,
            },
            Value::Bool { val } => ValueModel::Bool { val: *val },
            Value::Str { bytes } => ValueModel::Str { bytes: bytes@ },
            Value::ByteStr { bytes } => ValueModel::ByteStr { bytes: bytes@ },
            Value::Byte { val } => ValueModel::Byte { val: *val },
            Value::Array { elems } => ValueModel::Array { elems: views_of_values(elems@) },
            Value::Slice { frame, slot, start, len } => ValueModel::Slice {
                frame: *frame as int,
                slot: *slot as int,
                start: *start as int,
                len: *len as int,
            },
            Value::Tuple { elems } => ValueModel::Tuple { elems: views_of_values(elems@) },
            Value::TupleStruct { ty, args } => ValueModel::TupleStruct {
                ty: ty@,
                args: views_of_values(args@),
            },
            Value::Struct { ty, fields } => ValueModel::Struct {
                ty: ty@,
                fields: views_of_fields(fields@),
            },
            Value::Enum { ty, variant, payload } => ValueModel::Enum {
                ty: ty@,
                variant: *variant as int,
                payload: payload@,
            },
        }
    }
}

impl View for FieldValue {
    type V = FieldValueModel;

    open spec fn view(&self) -> FieldValueModel
        decreases self,
    {
        FieldValueModel { name: self.name@, value: self.value@ }
    }
}

impl View for Payload {
    type V = PayloadModel;

    open spec fn view(&self) -> PayloadModel
        decreases self,
    {
        match self {
            Payload::Unit => PayloadModel::Unit,
            Payload::Tuple { args } => PayloadModel::Tuple { args: views_of_values(args@) },
            Payload::Struct { fields } => PayloadModel::Struct { fields: views_of_fields(fields@) },
        }
    }
}

/// `views_of_values` is the pointwise view of its argument.
pub broadcast proof fn lemma_views_of_values(s: Seq<Value>)
    ensures
        (#[trigger] views_of_values(s)).len() == s.len(),
        forall|i: int| 0 <= i < s.len() ==> #[trigger] views_of_values(s)[i] == s[i]@,
    decreases s.len(),
{
    if s.len() > 0 {
        lemma_views_of_values(s.drop_last());
        assert(views_of_values(s) == views_of_values(s.drop_last()).push(s.last()@));
        assert forall|i: int| 0 <= i < s.len() implies #[trigger] views_of_values(s)[i]
            == s[i]@ by {
            if i < s.len() - 1 {
                assert(s.drop_last()[i] == s[i]);
            } else {
                assert(s[i] == s.last());
            }
        }
    }
}

/// `views_of_fields` is the pointwise view of its argument.
pub broadcast proof fn lemma_views_of_fields(s: Seq<FieldValue>)
    ensures
        (#[trigger] views_of_fields(s)).len() == s.len(),
        forall|i: int| 0 <= i < s.len() ==> #[trigger] views_of_fields(s)[i] == s[i]@,
    decreases s.len(),
{
    if s.len() > 0 {
        lemma_views_of_fields(s.drop_last());
        assert(views_of_fields(s) == views_of_fields(s.drop_last()).push(s.last()@));
        assert forall|i: int| 0 <= i < s.len() implies #[trigger] views_of_fields(s)[i]
            == s[i]@ by {
            if i < s.len() - 1 {
                assert(s.drop_last()[i] == s[i]);
            } else {
                assert(s[i] == s.last());
            }
        }
    }
}

/// A coarse description of a value's shape, for error reports.
pub open spec fn spec_describe(v: ValueModel) -> ShapeDescModel {
    match v {
        ValueModel::Unit => ShapeDescModel::Unit,
        ValueModel::Integer { .. } => ShapeDescModel::Scalar,
        ValueModel::Bool { .. } => ShapeDescModel::Scalar,
        ValueModel::Str { .. } => ShapeDescModel::Scalar,
        ValueModel::ByteStr { .. } => ShapeDescModel::Scalar,
        ValueModel::Byte { .. } => ShapeDescModel::Scalar,
        ValueModel::Array { .. } => ShapeDescModel::Sequence,
        ValueModel::Slice { .. } => ShapeDescModel::Sequence,
        ValueModel::Tuple { elems } => ShapeDescModel::Tuple { arity: elems.len() as int },
        ValueModel::TupleStruct { args, .. } => ShapeDescModel::Tuple { arity: args.len() as int },
        ValueModel::Struct { fields, .. } => ShapeDescModel::Struct { fields: fields.len() as int },
        ValueModel::Enum { variant, .. } => ShapeDescModel::Variant { index: variant },
    }
}

/// Describes a value's shape, for error reports.
pub fn describe_value(v: &Value) -> (r: ShapeDesc)
    ensures
        r@ == spec_describe(v@),
{
    match v {
        Value::Unit => ShapeDesc::Unit,
        Value::Integer { .. } => ShapeDesc::Scalar,
        Value::Bool { .. } => ShapeDesc::Scalar,
        Value::Str { .. } => ShapeDesc::Scalar,
        Value::ByteStr { .. } => ShapeDesc::Scalar,
        Value::Byte { .. } => ShapeDesc::Scalar,
        Value::Array { .. } => ShapeDesc::Sequence,
        Value::Slice { .. } => ShapeDesc::Sequence,
        Value::Tuple { elems } => {
            proof {
                lemma_views_of_values(elems@);
            }
            ShapeDesc::Tuple { arity: elems.len() }
        },
        Value::TupleStruct { args, .. } => {
            proof {
                lemma_views_of_values(args@);
            }
            ShapeDesc::Tuple { arity: args.len() }
        },
        Value::Struct { fields, .. } => {
            proof {
                lemma_views_of_fields(fields@);
            }
            ShapeDesc::Struct { fields: fields.len() }
        },
        Value::Enum { variant, .. } => ShapeDesc::Variant { index: *variant },
    }
}

/// The backing of a slice still covers it: the place exists, holds an
/// array, and the array is long enough.
pub open spec fn slice_backing_valid(
    ls: Seq<Seq<BindingModel>>,
    frame: int,
    slot: int,
    start: int,
    len: int,
) -> bool {
    &&& 0 <= frame < ls.len()
    &&& 0 <= slot < ls[frame].len()
    &&& ls[frame][slot].value matches ValueModel::Array { elems } && start + len <= elems.len()
}

/// What slicing the value at place `(frame, slot)` with the range
/// `[start, end)` produces: a borrowing view, an `OutOfBounds` error naming
/// the range and the source length, a `DanglingSlice` error when a slice of
/// a slice no longer has its backing, or a `ShapeMismatch` for a source
/// that is neither array nor slice.
pub open spec fn spec_slice_place(
    ls: Seq<Seq<BindingModel>>,
    frame: int,
    slot: int,
    start: int,
    end: int,
) -> Result<ValueModel, ErrorModel> {
    match ls[frame][slot].value {
        ValueModel::Array { elems } => if start > end || end > elems.len() {
            Err(ErrorModel::OutOfBounds { start, end, len: elems.len() as int })
        } else {
            Ok(ValueModel::Slice { frame, slot, start, len: end - start })
        },
        ValueModel::Slice { frame: f2, slot: s2, start: st2, len: l2 } => if start > end || end
            > l2 {
            Err(ErrorModel::OutOfBounds { start, end, len: l2 })
        } else if !slice_backing_valid(ls, f2, s2, st2, l2) {
            Err(ErrorModel::DanglingSlice)
        } else {
            Ok(ValueModel::Slice { frame: f2, slot: s2, start: st2 + start, len: end - start })
        },
        v => Err(
            ErrorModel::ShapeMismatch {
                expected: ShapeDescModel::Sequence,
                given: spec_describe(v),
            },
        ),
    }
}

/// Slices the array or slice held at local binding `(frame, slot)` to the
/// range `[start, end)`.  The result borrows: it records the place of the
/// backing array and copies nothing.
pub fn slice_place(locals: &LocalScope, frame: usize, slot: usize, start: usize, end: usize) -> (r:
    Result<Value, Error>)
    requires
        frame < locals@.len(),
        slot < locals@[frame as int].len(),
    ensures
        result_model(r) == spec_slice_place(
            locals@,
            frame as int,
            slot as int,
            start as int,
            end as int,
        ),
{
    match locals.value_at(frame, slot) {
        Value::Array { elems } => {
            proof {
                lemma_views_of_values(elems@);
            }
            if start > end || end > elems.len() {
                Err(Error::OutOfBounds { start, end, len: elems.len() })
            } else {
                Ok(Value::Slice { frame, slot, start, len: end - start })
            }
        },
        Value::Slice { frame: f2, slot: s2, start: st2, len: l2 } => {
            if start > end || end > *l2 {
                Err(Error::OutOfBounds { start, end, len: *l2 })
            } else if *f2 < locals.depth() && *s2 < locals.frame_len(*f2) {
                match locals.value_at(*f2, *s2) {
                    Value::Array { elems } => {
                        proof {
                            lemma_views_of_values(elems@);
                        }
                        if *st2 <= elems.len() && *l2 <= elems.len() - *st2 {
                            Ok(
                                Value::Slice {
                                    frame: *f2,
                                    slot: *s2,
                                    start: *st2 + start,
                                    len: end - start,
                                },
                            )
                        } else {
                            Err(Error::DanglingSlice)
                        }
                    },
                    _ => Err(Error::DanglingSlice),
                }
            } else {
                Err(Error::DanglingSlice)
            }
        },
        v => Err(Error::ShapeMismatch { expected: ShapeDesc::Sequence, given: describe_value(v) }),
    }
}

/// What indexing `v` at offset `k` reads: element `k` of an array, element
/// `start + k` of a slice's backing array (a `DanglingSlice` error when the
/// backing no longer covers it), an `OutOfBounds` error naming the offset,
/// or a `ShapeMismatch` for anything else.
pub open spec fn spec_index(ls: Seq<Seq<BindingModel>>, v: ValueModel, k: int) -> Result<
    ValueModel,
    ErrorModel,
> {
    match v {
        ValueModel::Array { elems } => if 0 <= k < elems.len() {
            Ok(elems[k])
        } else {
            Err(ErrorModel::OutOfBounds { start: k, end: k, len: elems.len() as int })
        },
        ValueModel::Slice { frame, slot, start, len } => if !(0 <= k < len) {
            Err(ErrorModel::OutOfBounds { start: k, end: k, len })
        } else if !(0 <= frame < ls.len() && 0 <= slot < ls[frame].len()) {
            Err(ErrorModel::DanglingSlice)
        } else {
            match ls[frame][slot].value {
                ValueModel::Array { elems } => if start + k < elems.len() {
                    Ok(elems[start + k])
                } else {
                    Err(ErrorModel::DanglingSlice)
                },
                _ => Err(ErrorModel::DanglingSlice),
            }
        },
        other => Err(
            ErrorModel::ShapeMismatch {
                expected: ShapeDescModel::Sequence,
                given: spec_describe(other),
            },
        ),
    }
}

/// Reads element `k` of an array value, or of the backing of a slice value
/// through the local scopes.
pub fn index_value<'a>(locals: &'a LocalScope, v: &'a Value, k: usize) -> (r: Result<
    &'a Value,
    Error,
>)
    ensures
        result_model(r) == spec_index(locals@, v@, k as int),
{
    match v {
        Value::Array { elems } => {
            proof {
                lemma_views_of_values(elems@);
            }
            if k < elems.len() {
                Ok(&elems[k])
            } else {
                Err(Error::OutOfBounds { start: k, end: k, len: elems.len() })
            }
        },
        Value::Slice { frame, slot, start, len } => {
            if k >= *len {
                Err(Error::OutOfBounds { start: k, end: k, len: *len })
            } else if *frame < locals.depth() && *slot < locals.frame_len(*frame) {
                match locals.value_at(*frame, *slot) {
                    Value::Array { elems } => {
                        proof {
                            lemma_views_of_values(elems@);
                        }
                        if *start <= elems.len() && k < elems.len() - *start {
                            Ok(&elems[*start + k])
                        } else {
                            Err(Error::DanglingSlice)
                        }
                    },
                    _ => Err(Error::DanglingSlice),
                }
            } else {
                Err(Error::DanglingSlice)
            }
        },
        other => Err(
            Error::ShapeMismatch { expected: ShapeDesc::Sequence, given: describe_value(other) },
        ),
    }
}

/// The slice round trip: for an array `arr` bound at `(frame, slot)` and
/// any in-range slice `[i, j)`, reading the slice at any `k < j - i` reads
/// exactly `arr[i + k]`.
pub proof fn lemma_slice_round_trip(
    ls: Seq<Seq<BindingModel>>,
    frame: int,
    slot: int,
    elems: Seq<ValueModel>,
    i: int,
    j: int,
    k: int,
)
    requires
        0 <= frame < ls.len(),
        0 <= slot < ls[frame].len(),
        ls[frame][slot].value == (ValueModel::Array { elems }),
        0 <= i <= j <= elems.len(),
        0 <= k < j - i,
    ensures
        spec_slice_place(ls, frame, slot, i, j) matches Ok(sl) && spec_index(ls, sl, k) == Ok::<
            ValueModel,
            ErrorModel,
        >(elems[i + k]),
{
}

/// The slice bounds law: slicing an array bound at `(frame, slot)` fails
/// with `OutOfBounds` exactly when the requested range is backwards or runs
/// past the array, and succeeds otherwise.
pub proof fn lemma_slice_bounds(
    ls: Seq<Seq<BindingModel>>,
    frame: int,
    slot: int,
    elems: Seq<ValueModel>,
    i: int,
    j: int,
)
    requires
        0 <= frame < ls.len(),
        0 <= slot < ls[frame].len(),
        ls[frame][slot].value == (ValueModel::Array { elems }),
        0 <= i,
        0 <= j,
    ensures
        (i > j || j > elems.len()) <==> spec_slice_place(ls, frame, slot, i, j) == Err::<
            ValueModel,
            ErrorModel,
        >(ErrorModel::OutOfBounds { start: i, end: j, len: elems.len() as int }),
        !(i > j || j > elems.len()) ==> spec_slice_place(ls, frame, slot, i, j) == Ok::<
            ValueModel,
            ErrorModel,
        >(ValueModel::Slice { frame, slot, start: i, len: j - i }),
{
}

/// Deep-copies a byte vector.
fn clone_bytes(v: &Vec<u8>) -> (r: Vec<u8>)
    ensures
        r@ == v@,
{
    let mut r: Vec<u8> = Vec::new();
    let n = v.len();
    for i in 0..n
        invariant
            n == v.len(),
            r@ =~= v@.take(i as int),
    {
        r.push(v[i]);
        proof {
            assert(v@.take(i as int + 1) =~= v@.take(i as int).push(v@[i as int]));
        }
    }
    proof {
        assert(v@.take(n as int) =~= v@);
    }
    r
}

/// Deep-copies a value.  The copy owns everything it holds: no element is
/// shared with the original.
pub fn value_clone(v: &Value) -> (r: Value)
    ensures
        r@ == v@,
    decreases v,
{
    match v {
        Value::Unit => Value::Unit,
        Value::Integer { width, signed, magnitude } => Value::Integer {
            width: *width,
            signed: *signed,
            magnitude: *magnitude,
        },
        Value::Bool { val } => Value::Bool { val: *val },
        Value::Str { bytes } => Value::Str { bytes: clone_bytes(bytes) },
        Value::ByteStr { bytes } => Value::ByteStr { bytes: clone_bytes(bytes) },
        Value::Byte { val } => Value::Byte { val: *val },
        Value::Array { elems } => Value::Array { elems: clone_values(elems) },
        Value::Slice { frame, slot, start, len } => Value::Slice {
            frame: *frame,
            slot: *slot,
            start: *start,
            len: *len,
        },
        Value::Tuple { elems } => Value::Tuple { elems: clone_values(elems) },
        Value::TupleStruct { ty, args } => Value::TupleStruct {
            ty: *ty,
            args: clone_values(args),
        },
        Value::Struct { ty, fields } => Value::Struct {
            ty: *ty,
            fields: clone_field_values(fields),
        },
        Value::Enum { ty, variant, payload } => Value::Enum {
            ty: *ty,
            variant: *variant,
            payload: clone_payload(payload),
        },
    }
}

/// Deep-copies a vector of values.
fn clone_values(xs: &Vec<Value>) -> (r: Vec<Value>)
    ensures
        r@.len() == xs@.len(),
        views_of_values(r@) == views_of_values(xs@),
    decreases xs,
{
    let mut r: Vec<Value> = Vec::new();
    let n = xs.len();
    for i in 0..n
        invariant
            n == xs.len(),
            r@.len() == i,
            forall|j: int| 0 <= j < i ==> (#[trigger] r@[j])@ == xs@[j]@,
    {
        r.push(value_clone(&xs[i]));
    }
    proof {
        lemma_views_of_values(r@);
        lemma_views_of_values(xs@);
        assert(views_of_values(r@) =~= views_of_values(xs@));
    }
    r
}

/// Deep-copies a vector of named fields.
fn clone_field_values(xs: &Vec<FieldValue>) -> (r: Vec<FieldValue>)
    ensures
        r@.len() == xs@.len(),
        views_of_fields(r@) == views_of_fields(xs@),
    decreases xs,
{
    let mut r: Vec<FieldValue> = Vec::new();
    let n = xs.len();
    for i in 0..n
        invariant
            n == xs.len(),
            r@.len() == i,
            forall|j: int| 0 <= j < i ==> (#[trigger] r@[j])@ == xs@[j]@,
    {
        let f = &xs[i];
        r.push(FieldValue { name: f.name.clone(), value: value_clone(&f.value) });
    }
    proof {
        lemma_views_of_fields(r@);
        lemma_views_of_fields(xs@);
        assert(views_of_fields(r@) =~= views_of_fields(xs@));
    }
    r
}

/// Deep-copies an enum payload.
fn clone_payload(p: &Payload) -> (r: Payload)
    ensures
        r@ == p@,
    decreases p,
{
    match p {
        Payload::Unit => Payload::Unit,
        Payload::Tuple { args } => Payload::Tuple { args: clone_values(args) },
        Payload::Struct { fields } => Payload::Struct { fields: clone_field_values(fields) },
    }
}

/// Builds the repeat array `[elem; n]`: an array of `n` fresh deep copies
/// of `elem`.  Each element owns its own data — mutating one can never be
/// seen through another.
pub fn repeat_value(elem: &Value, n: usize) -> (r: Value)
    ensures
        r@ == (ValueModel::Array { elems: Seq::new(n as nat, |i: int| elem@) }),
{
    let mut elems: Vec<Value> = Vec::new();
    for i in 0..n
        invariant
            elems@.len() == i,
            forall|j: int| 0 <= j < i ==> (#[trigger] elems@[j])@ == elem@,
    {
        elems.push(value_clone(elem));
    }
    proof {
        lemma_views_of_values(elems@);
        assert(views_of_values(elems@) =~= Seq::new(n as nat, |i: int| elem@));
    }
    Value::Array { elems }
}

/// Compares two byte vectors.
fn bytes_eq(a: &Vec<u8>, b: &Vec<u8>) -> (r: bool)
    ensures
        r == (a@ == b@),
{
    if a.len() != b.len() {
        return false;
    }
    let n = a.len();
    for i in 0..n
        invariant
            n == a.len(),
            a@.len() == b@.len(),
            forall|j: int| 0 <= j < i ==> a@[j] == b@[j],
    {
        if a[i] != b[i] {
            return false;
        }
    }
    proof {
        assert(a@ =~= b@);
    }
    true
}

/// Structural equality of values: `true` exactly when the two values have
/// the same mathematical model.
pub fn value_eq(a: &Value, b: &Value) -> (r: bool)
    ensures
        r == (a@ == b@),
    decreases a,
{
    match a {
        Value::Unit => matches!(b, Value::Unit),
        Value::Integer { width, signed, magnitude } => match b {
            Value::Integer { width: w2, signed: s2, magnitude: m2 } => *width == *w2 && *signed
                == *s2 && *magnitude == *m2,
            _ => false,
        },
        Value::Bool { val } => match b {
            Value::Bool { val: v2 } => *val == *v2,
            _ => false,
        },
        Value::Str { bytes } => match b {
            Value::Str { bytes: b2 } => bytes_eq(bytes, b2),
            _ => false,
        },
        Value::ByteStr { bytes } => match b {
            Value::ByteStr { bytes: b2 } => bytes_eq(bytes, b2),
            _ => false,
        },
        Value::Byte { val } => match b {
            Value::Byte { val: v2 } => *val == *v2,
            _ => false,
        },
        Value::Array { elems } => match b {
            Value::Array { elems: e2 } => values_eq(elems, e2),
            _ => false,
        },
        Value::Slice { frame, slot, start, len } => match b {
            Value::Slice { frame: f2, slot: s2, start: st2, len: l2 } => *frame == *f2 && *slot
                == *s2 && *start == *st2 && *len == *l2,
            _ => false,
        },
        Value::Tuple { elems } => match b {
            Value::Tuple { elems: e2 } => values_eq(elems, e2),
            _ => false,
        },
        Value::TupleStruct { ty, args } => match b {
            Value::TupleStruct { ty: t2, args: a2 } => *ty == *t2 && values_eq(args, a2),
            _ => false,
        },
        Value::Struct { ty, fields } => match b {
            Value::Struct { ty: t2, fields: f2 } => *ty == *t2 && fields_eq(fields, f2),
            _ => false,
        },
        Value::Enum { ty, variant, payload } => match b {
            Value::Enum { ty: t2, variant: v2, payload: p2 } => *ty == *t2 && *variant == *v2
                && payload_eq(payload, p2),
            _ => false,
        },
    }
}

/// Pointwise equality of two value vectors, on their models.
fn values_eq(x: &Vec<Value>, y: &Vec<Value>) -> (r: bool)
    ensures
        r == (views_of_values(x@) == views_of_values(y@)),
    decreases x,
{
    proof {
        lemma_views_of_values(x@);
        lemma_views_of_values(y@);
    }
    if x.len() != y.len() {
        return false;
    }
    let n = x.len();
    for i in 0..n
        invariant
            n == x.len(),
            x@.len() == y@.len(),
            forall|j: int| 0 <= j < i ==> x@[j]@ == #[trigger] y@[j]@,
    {
        if !value_eq(&x[i], &y[i]) {
            proof {
                lemma_views_of_values(x@);
                lemma_views_of_values(y@);
                assert(views_of_values(x@)[i as int] == x@[i as int]@);
                assert(views_of_values(y@)[i as int] == y@[i as int]@);
            }
            return false;
        }
    }
    proof {
        lemma_views_of_values(x@);
        lemma_views_of_values(y@);
        assert(views_of_values(x@) =~= views_of_values(y@));
    }
    true
}

/// Pointwise equality of two field vectors, on their models.
fn fields_eq(x: &Vec<FieldValue>, y: &Vec<FieldValue>) -> (r: bool)
    ensures
        r == (views_of_fields(x@) == views_of_fields(y@)),
    decreases x,
{
    proof {
        lemma_views_of_fields(x@);
        lemma_views_of_fields(y@);
    }
    if x.len() != y.len() {
        return false;
    }
    let n = x.len();
    for i in 0..n
        invariant
            n == x.len(),
            x@.len() == y@.len(),
            forall|j: int| 0 <= j < i ==> x@[j]@ == #[trigger] y@[j]@,
    {
        let fx = &x[i];
        let fy = &y[i];
        if !(fx.name == fy.name) {
            proof {
                lemma_views_of_fields(x@);
                lemma_views_of_fields(y@);
                assert(views_of_fields(x@)[i as int] == x@[i as int]@);
                assert(views_of_fields(y@)[i as int] == y@[i as int]@);
            }
            return false;
        }
        if !value_eq(&fx.value, &fy.value) {
            proof {
                lemma_views_of_fields(x@);
                lemma_views_of_fields(y@);
                assert(views_of_fields(x@)[i as int] == x@[i as int]@);
                assert(views_of_fields(y@)[i as int] == y@[i as int]@);
            }
            return false;
        }
    }
    proof {
        lemma_views_of_fields(x@);
        lemma_views_of_fields(y@);
        assert(views_of_fields(x@) =~= views_of_fields(y@));
    }
    true
}

/// Equality of two enum payloads, on their models.
fn payload_eq(p: &Payload, q: &Payload) -> (r: bool)
    ensures
        r == (p@ == q@),
    decreases p,
{
    match p {
        Payload::Unit => matches!(q, Payload::Unit),
        Payload::Tuple { args } => match q {
            Payload::Tuple { args: a2 } => values_eq(args, a2),
            _ => false,
        },
        Payload::Struct { fields } => match q {
            Payload::Struct { fields: f2 } => fields_eq(fields, f2),
            _ => false,
        },
    }
}

/// A coarse description of a declared type shape, for error reports.
pub open spec fn spec_describe_shape(s: TypeShapeModel) -> ShapeDescModel {
    match s {
        TypeShapeModel::Unit => ShapeDescModel::Unit,
        TypeShapeModel::Tuple { tys } => ShapeDescModel::Tuple { arity: tys.len() as int },
        TypeShapeModel::Struct { fields } => ShapeDescModel::Struct { fields: fields.len() as int },
        TypeShapeModel::Enum { variants } => ShapeDescModel::Enum {
            variants: variants.len() as int,
        },
    }
}

/// Describes a declared type shape, for error reports.
fn describe_shape(s: &TypeShape) -> (r: ShapeDesc)
    ensures
        r@ == spec_describe_shape(s@),
{
    match s {
        TypeShape::Unit => ShapeDesc::Unit,
        TypeShape::Tuple { tys } => ShapeDesc::Tuple { arity: tys.len() },
        TypeShape::Struct { fields } => ShapeDesc::Struct { fields: fields.len() },
        TypeShape::Enum { variants } => ShapeDesc::Enum { variants: variants.len() },
    }
}

/// The first position at which the given fields do not carry the declared
/// name.
pub open spec fn first_field_mismatch(
    want: Seq<FieldModel>,
    given: Seq<FieldValueModel>,
    i: int,
) -> Option<int>
    decreases want.len() - i,
{
    if i < 0 || i >= want.len() || i >= given.len() {
        None
    } else if given[i].name != want[i].name {
        Some(i)
    } else {
        first_field_mismatch(want, given, i + 1)
    }
}

/// Whether `given` initialises exactly the declared fields, in declared
/// order: same count, and each position carries the declared name.  On
/// violation the error names the two sides.
pub open spec fn spec_check_fields(want: Seq<FieldModel>, given: Seq<FieldValueModel>) -> Result<
    (),
    ErrorModel,
> {
    if given.len() != want.len() {
        Err(
            ErrorModel::ShapeMismatch {
                expected: ShapeDescModel::Struct { fields: want.len() as int },
                given: ShapeDescModel::Struct { fields: given.len() as int },
            },
        )
    } else {
        match first_field_mismatch(want, given, 0) {
            Some(i) => Err(
                ErrorModel::ShapeMismatch {
                    expected: ShapeDescModel::Field { name: want[i].name },
                    given: ShapeDescModel::Field { name: given[i].name },
                },
            ),
            None => Ok(()),
        }
    }
}

/// Checks the given fields against the declared ones.
fn check_fields(want: &Vec<FieldDecl>, given: &Vec<FieldValue>) -> (r: Result<(), Error>)
    ensures
        result_model(r) == spec_check_fields(
            want@.map_values(|f: FieldDecl| f@),
            views_of_fields(given@),
        ),
{
    let ghost wantv = want@.map_values(|f: FieldDecl| f@);
    let ghost givenv = views_of_fields(given@);
    proof {
        lemma_views_of_fields(given@);
    }
    if given.len() != want.len() {
        return Err(
            Error::ShapeMismatch {
                expected: ShapeDesc::Struct { fields: want.len() },
                given: ShapeDesc::Struct { fields: given.len() },
            },
        );
    }
    let n = want.len();
    for i in 0..n
        invariant
            n == want.len(),
            wantv == want@.map_values(|f: FieldDecl| f@),
            givenv == views_of_fields(given@),
            givenv.len() == wantv.len(),
            n == wantv.len(),
            given@.len() == n,
            forall|j: int| 0 <= j < givenv.len() ==> #[trigger] givenv[j] == given@[j]@,
            first_field_mismatch(wantv, givenv, 0) == first_field_mismatch(wantv, givenv, i as int),
    {
        if !(given[i].name == want[i].name) {
            proof {
                assert(givenv[i as int].name == given@[i as int]@.name);
                assert(first_field_mismatch(wantv, givenv, i as int) == Some(i as int));
            }
            return Err(
                Error::ShapeMismatch {
                    expected: ShapeDesc::Field { name: want[i].name.clone() },
                    given: ShapeDesc::Field { name: given[i].name.clone() },
                },
            );
        }
        proof {
            assert(givenv[i as int].name == wantv[i as int].name);
        }
    }
    Ok(())
}

/// What constructing a struct instance from `decl` with the given fields
/// produces: the instance when every declared field is given exactly once
/// in declared order, a `ShapeMismatch` otherwise.
pub open spec fn spec_make_struct(
    decl: TypeModel,
    ty: TypeRefModel,
    given: Seq<FieldValueModel>,
) -> Result<ValueModel, ErrorModel> {
    match decl.shape {
        TypeShapeModel::Struct { fields: want } => match spec_check_fields(want, given) {
            Ok(u) => Ok(ValueModel::Struct { ty, fields: given }),
            Err(e) => Err(e),
        },
        other => Err(
            ErrorModel::ShapeMismatch {
                expected: spec_describe_shape(other),
                given: ShapeDescModel::Struct { fields: given.len() as int },
            },
        ),
    }
}

/// Constructs a struct instance, validating the fields against the
/// declaration.
pub fn make_struct(decl: &TypeDecl, ty: TypeRef, fields: Vec<FieldValue>) -> (r: Result<
    Value,
    Error,
>)
    ensures
        result_model(r) == spec_make_struct(decl@, ty@, views_of_fields(fields@)),
{
    proof {
        lemma_views_of_fields(fields@);
    }
    match &decl.shape {
        TypeShape::Struct { fields: want } => match check_fields(want, &fields) {
            Ok(u) => Ok(Value::Struct { ty, fields }),
            Err(e) => Err(e),
        },
        other => Err(
            Error::ShapeMismatch {
                expected: describe_shape(other),
                given: ShapeDesc::Struct { fields: fields.len() },
            },
        ),
    }
}

/// What constructing a tuple-struct instance produces: the instance when
/// the argument count matches the declared arity (a unit struct takes no
/// arguments), a `ShapeMismatch` otherwise.
pub open spec fn spec_make_tuple_struct(
    decl: TypeModel,
    ty: TypeRefModel,
    given: Seq<ValueModel>,
) -> Result<ValueModel, ErrorModel> {
    match decl.shape {
        TypeShapeModel::Tuple { tys } => if given.len() == tys.len() {
            Ok(ValueModel::TupleStruct { ty, args: given })
        } else {
            Err(
                ErrorModel::ShapeMismatch {
                    expected: ShapeDescModel::Tuple { arity: tys.len() as int },
                    given: ShapeDescModel::Tuple { arity: given.len() as int },
                },
            )
        },
        TypeShapeModel::Unit => if given.len() == 0 {
            Ok(ValueModel::TupleStruct { ty, args: given })
        } else {
            Err(
                ErrorModel::ShapeMismatch {
                    expected: ShapeDescModel::Unit,
                    given: ShapeDescModel::Tuple { arity: given.len() as int },
                },
            )
        },
        other => Err(
            ErrorModel::ShapeMismatch {
                expected: spec_describe_shape(other),
                given: ShapeDescModel::Tuple { arity: given.len() as int },
            },
        ),
    }
}

/// Constructs a tuple-struct (or unit-struct) instance, validating the
/// argument count against the declaration.
pub fn make_tuple_struct(decl: &TypeDecl, ty: TypeRef, args: Vec<Value>) -> (r: Result<
    Value,
    Error,
>)
    ensures
        result_model(r) == spec_make_tuple_struct(decl@, ty@, views_of_values(args@)),
{
    proof {
        lemma_views_of_values(args@);
    }
    match &decl.shape {
        TypeShape::Tuple { tys } => if args.len() == tys.len() {
            Ok(Value::TupleStruct { ty, args })
        } else {
            Err(
                Error::ShapeMismatch {
                    expected: ShapeDesc::Tuple { arity: tys.len() },
                    given: ShapeDesc::Tuple { arity: args.len() },
                },
            )
        },
        TypeShape::Unit => if args.len() == 0 {
            Ok(Value::TupleStruct { ty, args })
        } else {
            Err(
                Error::ShapeMismatch {
                    expected: ShapeDesc::Unit,
                    given: ShapeDesc::Tuple { arity: args.len() },
                },
            )
        },
        other => Err(
            Error::ShapeMismatch {
                expected: describe_shape(other),
                given: ShapeDesc::Tuple { arity: args.len() },
            },
        ),
    }
}

/// A coarse description of a declared variant shape, for error reports.
pub open spec fn spec_describe_variant(s: VariantShapeModel) -> ShapeDescModel {
    match s {
        VariantShapeModel::Unit => ShapeDescModel::Unit,
        VariantShapeModel::Tuple { tys } => ShapeDescModel::Tuple { arity: tys.len() as int },
        VariantShapeModel::Struct { fields } => ShapeDescModel::Struct {
            fields: fields.len() as int,
        },
    }
}

/// A coarse description of a payload, for error reports.
pub open spec fn spec_describe_payload(p: PayloadModel) -> ShapeDescModel {
    match p {
        PayloadModel::Unit => ShapeDescModel::Unit,
        PayloadModel::Tuple { args } => ShapeDescModel::Tuple { arity: args.len() as int },
        PayloadModel::Struct { fields } => ShapeDescModel::Struct { fields: fields.len() as int },
    }
}

/// Whether a payload matches a declared variant shape: a unit payload for a
/// unit variant, matching arity for a tuple variant, exactly the declared
/// fields in order for a struct variant.
pub open spec fn spec_check_payload(want: VariantShapeModel, given: PayloadModel) -> Result<
    (),
    ErrorModel,
> {
    match want {
        VariantShapeModel::Unit => match given {
            PayloadModel::Unit => Ok(()),
            other => Err(
                ErrorModel::ShapeMismatch {
                    expected: ShapeDescModel::Unit,
                    given: spec_describe_payload(other),
                },
            ),
        },
        VariantShapeModel::Tuple { tys } => match given {
            PayloadModel::Tuple { args } => if args.len() == tys.len() {
                Ok(())
            } else {
                Err(
                    ErrorModel::ShapeMismatch {
                        expected: ShapeDescModel::Tuple { arity: tys.len() as int },
                        given: ShapeDescModel::Tuple { arity: args.len() as int },
                    },
                )
            },
            other => Err(
                ErrorModel::ShapeMismatch {
                    expected: ShapeDescModel::Tuple { arity: tys.len() as int },
                    given: spec_describe_payload(other),
                },
            ),
        },
        VariantShapeModel::Struct { fields: want2 } => match given {
            PayloadModel::Struct { fields: given2 } => spec_check_fields(want2, given2),
            other => Err(
                ErrorModel::ShapeMismatch {
                    expected: ShapeDescModel::Struct { fields: want2.len() as int },
                    given: spec_describe_payload(other),
                },
            ),
        },
    }
}

/// Checks a payload against a declared variant shape.
fn check_payload(want: &VariantShape, given: &Payload) -> (r: Result<(), Error>)
    ensures
        result_model(r) == spec_check_payload(want@, given@),
{
    match want {
        VariantShape::Unit => match given {
            Payload::Unit => Ok(()),
            other => Err(
                Error::ShapeMismatch {
                    expected: ShapeDesc::Unit,
                    given: describe_payload(other),
                },
            ),
        },
        VariantShape::Tuple { tys } => match given {
            Payload::Tuple { args } => {
                proof {
                    lemma_views_of_values(args@);
                }
                if args.len() == tys.len() {
                    Ok(())
                } else {
                    Err(
                        Error::ShapeMismatch {
                            expected: ShapeDesc::Tuple { arity: tys.len() },
                            given: ShapeDesc::Tuple { arity: args.len() },
                        },
                    )
                }
            },
            other => Err(
                Error::ShapeMismatch {
                    expected: ShapeDesc::Tuple { arity: tys.len() },
                    given: describe_payload(other),
                },
            ),
        },
        VariantShape::Struct { fields: want2 } => match given {
            Payload::Struct { fields: given2 } => check_fields(want2, given2),
            other => Err(
                Error::ShapeMismatch {
                    expected: ShapeDesc::Struct { fields: want2.len() },
                    given: describe_payload(other),
                },
            ),
        },
    }
}

/// Describes a payload, for error reports.
fn describe_payload(p: &Payload) -> (r: ShapeDesc)
    ensures
        r@ == spec_describe_payload(p@),
{
    match p {
        Payload::Unit => ShapeDesc::Unit,
        Payload::Tuple { args } => {
            proof {
                lemma_views_of_values(args@);
            }
            ShapeDesc::Tuple { arity: args.len() }
        },
        Payload::Struct { fields } => {
            proof {
                lemma_views_of_fields(fields@);
            }
            ShapeDesc::Struct { fields: fields.len() }
        },
    }
}

/// What constructing an enum instance produces: the instance when the
/// variant index is declared and the payload matches that variant's shape,
/// a `ShapeMismatch` otherwise.
pub open spec fn spec_make_enum(
    decl: TypeModel,
    ty: TypeRefModel,
    variant: int,
    payload: PayloadModel,
) -> Result<ValueModel, ErrorModel> {
    match decl.shape {
        TypeShapeModel::Enum { variants } => if !(0 <= variant < variants.len()) {
            Err(
                ErrorModel::ShapeMismatch {
                    expected: ShapeDescModel::Enum { variants: variants.len() as int },
                    given: ShapeDescModel::Variant { index: variant },
                },
            )
        } else {
            match spec_check_payload(variants[variant].shape, payload) {
                Ok(u) => Ok(ValueModel::Enum { ty, variant, payload }),
                Err(e) => Err(e),
            }
        },
        other => Err(
            ErrorModel::ShapeMismatch {
                expected: spec_describe_shape(other),
                given: ShapeDescModel::Variant { index: variant },
            },
        ),
    }
}

/// Constructs an enum instance, validating the variant index and the
/// payload shape against the declaration.
pub fn make_enum(decl: &TypeDecl, ty: TypeRef, variant: usize, payload: Payload) -> (r: Result<
    Value,
    Error,
>)
    ensures
        result_model(r) == spec_make_enum(decl@, ty@, variant as int, payload@),
{
    match &decl.shape {
        TypeShape::Enum { variants } => if variant >= variants.len() {
            Err(
                Error::ShapeMismatch {
                    expected: ShapeDesc::Enum { variants: variants.len() },
                    given: ShapeDesc::Variant { index: variant },
                },
            )
        } else {
            match check_payload(&variants[variant].shape, &payload) {
                Ok(u) => Ok(Value::Enum { ty, variant, payload }),
                Err(e) => Err(e),
            }
        },
        other => Err(
            Error::ShapeMismatch {
                expected: describe_shape(other),
                given: ShapeDesc::Variant { index: variant },
            },
        ),
    }
}

/// The first field of a struct instance named `name`, at or after `i`.
pub open spec fn first_field_named(fields: Seq<FieldValueModel>, name: Seq<char>, i: int) -> Option<
    int,
>
    decreases fields.len() - i,
{
    if i < 0 || i >= fields.len() {
        None
    } else if fields[i].name == name {
        Some(i)
    } else {
        first_field_named(fields, name, i + 1)
    }
}

/// What projecting field `name` out of `v` reads: the field's value for a
/// struct instance that has it, `UnresolvedPath` naming the field when the
/// instance lacks it, `ShapeMismatch` for any other value.
pub open spec fn spec_struct_field(v: ValueModel, name: Seq<char>) -> Result<
    ValueModel,
    ErrorModel,
> {
    match v {
        ValueModel::Struct { fields, .. } => match first_field_named(fields, name, 0) {
            Some(i) => Ok(fields[i].value),
            None => Err(ErrorModel::UnresolvedPath { segment: name }),
        },
        other => Err(
            ErrorModel::ShapeMismatch {
                expected: ShapeDescModel::Field { name },
                given: spec_describe(other),
            },
        ),
    }
}

/// Projects the field `name` out of a struct instance.
pub fn struct_field<'a>(v: &'a Value, name: &String) -> (r: Result<&'a Value, Error>)
    ensures
        result_model(r) == spec_struct_field(v@, name@),
{
    match v {
        Value::Struct { ty, fields } => {
            let ghost fieldsv = views_of_fields(fields@);
            proof {
                lemma_views_of_fields(fields@);
                assert(v@ == (ValueModel::Struct { ty: ty@, fields: fieldsv }));
            }
            let n = fields.len();
            for i in 0..n
                invariant
                    n == fields.len(),
                    fieldsv == views_of_fields(fields@),
                    fieldsv.len() == n,
                    v@ == (ValueModel::Struct { ty: ty@, fields: fieldsv }),
                    forall|j: int| 0 <= j < n ==> #[trigger] fieldsv[j] == fields@[j]@,
                    first_field_named(fieldsv, name@, 0) == first_field_named(
                        fieldsv,
                        name@,
                        i as int,
                    ),
            {
                if fields[i].name == *name {
                    proof {
                        assert(fieldsv[i as int].name == name@);
                        assert(first_field_named(fieldsv, name@, i as int) == Some(i as int));
                        assert(fieldsv[i as int].value == fields@[i as int]@.value);
                    }
                    return Ok(&fields[i].value);
                }
                proof {
                    assert(fieldsv[i as int].name != name@);
                }
            }
            Err(Error::UnresolvedPath { segment: name.clone() })
        },
        other => Err(
            Error::ShapeMismatch {
                expected: ShapeDesc::Field { name: name.clone() },
                given: describe_value(other),
            },
        ),
    }
}

/// What projecting position `k` out of `v` reads: element `k` of a tuple
/// or tuple-struct instance, `OutOfBounds` past the end, `ShapeMismatch`
/// for any other value.
pub open spec fn spec_element_at(v: ValueModel, k: int) -> Result<ValueModel, ErrorModel> {
    match v {
        ValueModel::Tuple { elems } => if 0 <= k < elems.len() {
            Ok(elems[k])
        } else {
            Err(ErrorModel::OutOfBounds { start: k, end: k, len: elems.len() as int })
        },
        ValueModel::TupleStruct { args, .. } => if 0 <= k < args.len() {
            Ok(args[k])
        } else {
            Err(ErrorModel::OutOfBounds { start: k, end: k, len: args.len() as int })
        },
        other => Err(
            ErrorModel::ShapeMismatch {
                expected: ShapeDescModel::Sequence,
                given: spec_describe(other),
            },
        ),
    }
}

/// Projects position `k` out of a tuple or tuple-struct instance.
pub fn element_at<'a>(v: &'a Value, k: usize) -> (r: Result<&'a Value, Error>)
    ensures
        result_model(r) == spec_element_at(v@, k as int),
{
    match v {
        Value::Tuple { elems } => {
            proof {
                lemma_views_of_values(elems@);
            }
            if k < elems.len() {
                Ok(&elems[k])
            } else {
                Err(Error::OutOfBounds { start: k, end: k, len: elems.len() })
            }
        },
        Value::TupleStruct { args, .. } => {
            proof {
                lemma_views_of_values(args@);
            }
            if k < args.len() {
                Ok(&args[k])
            } else {
                Err(Error::OutOfBounds { start: k, end: k, len: args.len() })
            }
        },
        other => Err(
            Error::ShapeMismatch { expected: ShapeDesc::Sequence, given: describe_value(other) },
        ),
    }
}

} // verus!
