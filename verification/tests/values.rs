use symres::error::Error;
use symres::error::ShapeDesc;
use symres::eval::eval_assign;
use symres::eval::eval_enum_literal;
use symres::eval::eval_slice;
use symres::eval::eval_struct_literal;
use symres::eval::eval_tuple_struct_literal;
use symres::resolve::PathExpr;
use symres::sample::diff2;
use symres::scope::LocalScope;
use symres::tree::Decl;
use symres::tree::FieldDecl;
use symres::tree::ModuleTree;
use symres::tree::TypeShape;
use symres::tree::VariantDecl;
use symres::tree::VariantShape;
use symres::tree::build;
use symres::value::FieldValue;
use symres::value::Payload;
use symres::value::Value;
use symres::value::index_value;
use symres::value::repeat_value;
use symres::value::slice_place;
use symres::value::struct_field;
use symres::value::value_clone;
use symres::value::value_eq;

fn s(x: &str) -> String {
    x.to_string()
}

fn int32(n: u128) -> Value {
    Value::Integer { width: 32, signed: true, magnitude: n }
}

fn bare(name: &str) -> PathExpr {
    PathExpr { qualifiers: vec![], segments: vec![s(name)] }
}

fn number_array() -> Value {
    Value::Array { elems: vec![int32(1), int32(2), int32(3), int32(4)] }
}

/// A tree declaring `HiBob { field1, field2 }`, the tuple struct
/// `ByeBob(i32, u64)` and the enum `MoreComplicated { One, Two(i32) }` at
/// the crate root.
fn typed_tree() -> ModuleTree {
    let decls = vec![
        Decl::Type {
            parent: 0,
            name: s("HiBob"),
            shape: TypeShape::Struct {
                fields: vec![
                    FieldDecl { name: s("field1"), ty: s("i32"), public: true },
                    FieldDecl { name: s("field2"), ty: s("u64"), public: false },
                ],
            },
        },
        Decl::Type { parent: 0, name: s("ByeBob"), shape: TypeShape::Tuple {
            tys: vec![s("i32"), s("u64")],
        } },
        Decl::Type { parent: 0, name: s("MoreComplicated"), shape: TypeShape::Enum {
            variants: vec![
                VariantDecl { name: s("One"), shape: VariantShape::Unit },
                VariantDecl { name: s("Two"), shape: VariantShape::Tuple { tys: vec![s("i32")] } },
            ],
        } },
        Decl::Type { parent: 0, name: s("Unit"), shape: TypeShape::Unit },
    ];
    build(&decls).expect("collision-free declarations must build")
}

#[test]
fn slice_round_trip_reads_backing_elements() {
    let mut locals = LocalScope::new();
    locals.push_frame();
    locals.bind(s("arr"), number_array());
    let sl = slice_place(&locals, 0, 0, 1, 4).expect("in-range slice");
    for k in 0..3usize {
        let got = index_value(&locals, &sl, k).expect("in-range read");
        assert_eq!(got, &int32(1 + 1 + k as u128));
    }
}

#[test]
fn slice_of_arr_2_3_reads_third_element() {
    let tree = typed_tree();
    let mut locals = LocalScope::new();
    locals.push_frame();
    locals.bind(s("arr"), number_array());
    let sl = eval_slice(&tree, 0, &locals, &bare("arr"), 2, 3).expect("in-range slice");
    let got = index_value(&locals, &sl, 0).expect("in-range read");
    assert_eq!(got, &int32(3));
}

#[test]
fn slice_never_copies_the_backing_array() {
    let mut locals = LocalScope::new();
    locals.push_frame();
    locals.bind(s("arr"), number_array());
    let sl = slice_place(&locals, 0, 0, 0, 4).expect("in-range slice");
    match sl {
        Value::Slice { frame, slot, start, len } => {
            assert_eq!((frame, slot, start, len), (0, 0, 0, 4));
        },
        other => panic!("expected a borrowing slice, got {:?}", other),
    }
}

#[test]
fn slice_past_the_end_is_out_of_bounds() {
    let mut locals = LocalScope::new();
    locals.push_frame();
    locals.bind(s("arr"), number_array());
    match slice_place(&locals, 0, 0, 2, 5) {
        Err(Error::OutOfBounds { start, end, len }) => assert_eq!((start, end, len), (2, 5, 4)),
        other => panic!("expected out of bounds, got {:?}", other),
    }
}

#[test]
fn backwards_slice_is_out_of_bounds() {
    let mut locals = LocalScope::new();
    locals.push_frame();
    locals.bind(s("arr"), number_array());
    match slice_place(&locals, 0, 0, 3, 2) {
        Err(Error::OutOfBounds { start, end, len }) => assert_eq!((start, end, len), (3, 2, 4)),
        other => panic!("expected out of bounds, got {:?}", other),
    }
}

#[test]
fn slicing_a_slice_narrows_the_view() {
    let mut locals = LocalScope::new();
    locals.push_frame();
    locals.bind(s("arr"), number_array());
    let sl = slice_place(&locals, 0, 0, 1, 4).expect("in-range slice");
    locals.bind(s("sl"), sl);
    // sl views elements 2, 3, 4; slicing it at [1, 3) views 3, 4.
    let sl2 = slice_place(&locals, 0, 1, 1, 3).expect("in-range re-slice");
    assert_eq!(index_value(&locals, &sl2, 0).expect("in range"), &int32(3));
    assert_eq!(index_value(&locals, &sl2, 1).expect("in range"), &int32(4));
    match slice_place(&locals, 0, 1, 1, 4) {
        Err(Error::OutOfBounds { start, end, len }) => assert_eq!((start, end, len), (1, 4, 3)),
        other => panic!("expected out of bounds, got {:?}", other),
    }
}

#[test]
fn reading_a_slice_after_its_scope_dies_is_dangling() {
    let mut locals = LocalScope::new();
    locals.push_frame();
    locals.bind(s("arr"), number_array());
    let sl = slice_place(&locals, 0, 0, 1, 3).expect("in-range slice");
    locals.pop_frame();
    assert_eq!(index_value(&locals, &sl, 0), Err(Error::DanglingSlice));
}

#[test]
fn slicing_a_scalar_is_a_shape_mismatch() {
    let mut locals = LocalScope::new();
    locals.push_frame();
    locals.bind(s("b"), Value::Bool { val: true });
    match slice_place(&locals, 0, 0, 0, 1) {
        Err(Error::ShapeMismatch { expected, given }) => {
            assert_eq!(expected, ShapeDesc::Sequence);
            assert_eq!(given, ShapeDesc::Scalar);
        },
        other => panic!("expected a shape mismatch, got {:?}", other),
    }
}

#[test]
fn assignment_yields_unit_and_rebinds() {
    let mut locals = LocalScope::new();
    locals.push_frame();
    locals.bind(s("c"), int32(27));
    let d = eval_assign(&mut locals, &s("c"), int32(99)).expect("c is bound");
    assert_eq!(d, Value::Unit);
    assert_eq!(locals.value_at(0, 0), &int32(99));
    // `let d = c = 99`: the binding d carries the unit value.
    locals.bind(s("d"), d);
    assert_eq!(locals.value_at(0, 1), &Value::Unit);
}

#[test]
fn assignment_to_an_unbound_name_fails() {
    let mut locals = LocalScope::new();
    locals.push_frame();
    match eval_assign(&mut locals, &s("ghostly"), int32(1)) {
        Err(Error::UnresolvedPath { segment }) => assert_eq!(segment, "ghostly"),
        other => panic!("expected an unresolved path, got {:?}", other),
    }
}

#[test]
fn struct_instance_projects_field1() {
    let tree = typed_tree();
    let locals = LocalScope::new();
    let v = eval_struct_literal(
        &tree,
        0,
        &locals,
        &bare("HiBob"),
        vec![
            FieldValue { name: s("field1"), value: int32(7) },
            FieldValue { name: s("field2"), value: int32(8) },
        ],
    )
    .expect("shape matches the declaration");
    let f1 = struct_field(&v, &s("field1")).expect("field1 is declared");
    assert_eq!(f1, &int32(7));
}

#[test]
fn struct_literal_with_missing_field_is_rejected() {
    let tree = typed_tree();
    let locals = LocalScope::new();
    let r = eval_struct_literal(
        &tree,
        0,
        &locals,
        &bare("HiBob"),
        vec![FieldValue { name: s("field1"), value: int32(7) }],
    );
    match r {
        Err(Error::ShapeMismatch { expected, given }) => {
            assert_eq!(expected, ShapeDesc::Struct { fields: 2 });
            assert_eq!(given, ShapeDesc::Struct { fields: 1 });
        },
        other => panic!("expected a shape mismatch, got {:?}", other),
    }
}

#[test]
fn struct_literal_with_wrong_field_name_is_rejected() {
    let tree = typed_tree();
    let locals = LocalScope::new();
    let r = eval_struct_literal(
        &tree,
        0,
        &locals,
        &bare("HiBob"),
        vec![
            FieldValue { name: s("field1"), value: int32(7) },
            FieldValue { name: s("field3"), value: int32(8) },
        ],
    );
    match r {
        Err(Error::ShapeMismatch { expected, given }) => {
            assert_eq!(expected, ShapeDesc::Field { name: s("field2") });
            assert_eq!(given, ShapeDesc::Field { name: s("field3") });
        },
        other => panic!("expected a shape mismatch, got {:?}", other),
    }
}

#[test]
fn tuple_struct_takes_exactly_its_arity() {
    let tree = typed_tree();
    let locals = LocalScope::new();
    let ok = eval_tuple_struct_literal(&tree, 0, &locals, &bare("ByeBob"), vec![
        int32(7),
        int32(8),
    ]);
    assert!(ok.is_ok());
    match eval_tuple_struct_literal(&tree, 0, &locals, &bare("ByeBob"), vec![int32(7)]) {
        Err(Error::ShapeMismatch { expected, given }) => {
            assert_eq!(expected, ShapeDesc::Tuple { arity: 2 });
            assert_eq!(given, ShapeDesc::Tuple { arity: 1 });
        },
        other => panic!("expected a shape mismatch, got {:?}", other),
    }
}

#[test]
fn unit_struct_takes_no_arguments() {
    let tree = typed_tree();
    let locals = LocalScope::new();
    assert!(eval_tuple_struct_literal(&tree, 0, &locals, &bare("Unit"), vec![]).is_ok());
    assert!(eval_tuple_struct_literal(&tree, 0, &locals, &bare("Unit"), vec![int32(1)]).is_err());
}

#[test]
fn enum_literal_checks_variant_and_payload() {
    let tree = typed_tree();
    let locals = LocalScope::new();
    let two = eval_enum_literal(
        &tree,
        0,
        &locals,
        &bare("MoreComplicated"),
        1,
        Payload::Tuple { args: vec![int32(73)] },
    );
    assert!(two.is_ok());
    // an undeclared variant index
    match eval_enum_literal(&tree, 0, &locals, &bare("MoreComplicated"), 5, Payload::Unit) {
        Err(Error::ShapeMismatch { expected, given }) => {
            assert_eq!(expected, ShapeDesc::Enum { variants: 2 });
            assert_eq!(given, ShapeDesc::Variant { index: 5 });
        },
        other => panic!("expected a shape mismatch, got {:?}", other),
    }
    // a payload of the wrong kind for variant One
    let bad = eval_enum_literal(
        &tree,
        0,
        &locals,
        &bare("MoreComplicated"),
        0,
        Payload::Tuple { args: vec![int32(1)] },
    );
    assert!(matches!(bad, Err(Error::ShapeMismatch { .. })));
}

#[test]
fn unknown_type_name_is_unresolved() {
    let tree = typed_tree();
    let locals = LocalScope::new();
    let r = eval_struct_literal(&tree, 0, &locals, &bare("NoSuch"), vec![]);
    match r {
        Err(Error::UnresolvedPath { segment }) => assert_eq!(segment, "NoSuch"),
        other => panic!("expected an unresolved path, got {:?}", other),
    }
}

#[test]
fn repeat_array_makes_independent_copies() {
    let text = Value::Str { bytes: b"whatever".to_vec() };
    let arr = repeat_value(&text, 8);
    match arr {
        Value::Array { mut elems } => {
            assert_eq!(elems.len(), 8);
            for e in &elems {
                assert!(value_eq(e, &text));
            }
            // mutating one element must not show through any other
            if let Value::Str { bytes } = &mut elems[0] {
                bytes.push(b'!');
            }
            assert!(!value_eq(&elems[0], &text));
            assert!(value_eq(&elems[1], &text));
        },
        other => panic!("expected an array, got {:?}", other),
    }
}

#[test]
fn value_eq_is_structural() {
    let a = Value::Tuple { elems: vec![int32(23), Value::Str { bytes: b"hi".to_vec() }] };
    let b = value_clone(&a);
    assert!(value_eq(&a, &b));
    let c = Value::Tuple { elems: vec![int32(24), Value::Str { bytes: b"hi".to_vec() }] };
    assert!(!value_eq(&a, &c));
    assert!(!value_eq(&a, &Value::Unit));
    assert!(value_eq(&Value::Byte { val: b'9' }, &Value::Byte { val: b'9' }));
}

#[test]
fn diff2_subtracts() {
    assert_eq!(diff2(92, 45), 47);
    assert_eq!(diff2(0, 5), -5);
}
