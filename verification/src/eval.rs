//! The evaluator: the thin composition root of the engine.
//!
//! Every function here does two things and nothing more: resolve the path
//! an expression names, through [`crate::resolve`], and then construct or
//! operate on values, through [`crate::value`].  The one rule of its own is
//! assignment-as-expression: `x = v` mutates the innermost binding of `x`
//! and yields the unit value, so an assignment can stand wherever a value
//! can.

use vstd::prelude::*;

use crate::error::Error;
use crate::error::ErrorModel;
use crate::error::ShapeDesc;
use crate::error::ShapeDescModel;
use crate::error::result_model;
use crate::resolve::Namespace;
use crate::resolve::PathExpr;
use crate::resolve::PathModel;
use crate::resolve::Resolution;
use crate::resolve::ResolutionModel;
use crate::resolve::lemma_resolve_target_valid;
use crate::resolve::resolve;
use crate::resolve::spec_resolve;
use crate::scope::BindingModel;
use crate::scope::LocalScope;
use crate::scope::lemma_find_local_same_names;
use crate::scope::spec_find_local;
use crate::tree::ModuleModel;
use crate::tree::ModuleTree;
use crate::tree::tree_wf;
use crate::value::FieldValue;
use crate::value::FieldValueModel;
use crate::value::Payload;
use crate::value::PayloadModel;
use crate::value::TypeRef;
use crate::value::TypeRefModel;
use crate::value::Value;
use crate::value::ValueModel;
use crate::value::make_enum;
use crate::value::make_struct;
use crate::value::make_tuple_struct;
use crate::value::slice_place;
use crate::value::spec_make_enum;
use crate::value::spec_make_struct;
use crate::value::spec_make_tuple_struct;
use crate::value::spec_slice_place;
use crate::value::views_of_fields;
use crate::value::views_of_values;

verus! {

/// Assignment as an expression: rebinds the innermost local named `name`
/// to `value` and yields the unit value.
///
/// This is the assignment-as-expression law in one contract: when `name`
/// is bound, the call returns `Unit` — so `let d = (c = 99)` binds `d` to
/// unit — and afterwards `name` still resolves to the same frame and slot,
/// now holding `value`.  When `name` is unbound the scopes are untouched
/// and the unresolved name is reported.
pub fn eval_assign(locals: &mut LocalScope, name: &String, value: Value) -> (r: Result<
    Value,
    Error,
>)
    ensures
        match spec_find_local(old(locals)@, name@) {
            Some((f, j)) => {
                &&& r matches Ok(u) && u@ == ValueModel::Unit
                &&& final(locals)@ == old(locals)@.update(
                    f,
                    old(locals)@[f].update(
                        j,
                        BindingModel { name: old(locals)@[f][j].name, value: value@ },
                    ),
                )
                &&& spec_find_local(final(locals)@, name@) == Some((f, j))
                &&& final(locals)@[f][j].value == value@
            },
            None => {
                &&& r matches Err(e) && e@ == (ErrorModel::UnresolvedPath { segment: name@ })
                &&& final(locals)@ == old(locals)@
            },
        },
{
    match locals.find_local(name) {
        Some((f, j)) => {
            locals.set_value(f, j, value);
            proof {
                lemma_find_local_same_names(old(locals)@, final(locals)@, name@);
            }
            Ok(Value::Unit)
        },
        None => Err(Error::UnresolvedPath { segment: name.clone() }),
    }
}

/// What evaluating a struct literal produces: the path is resolved in the
/// type namespace, and the declaration found checks the given fields.  A
/// path that names anything but a type cannot head a struct literal.
pub open spec fn spec_eval_struct_literal(
    t: Seq<ModuleModel>,
    start: int,
    ls: Seq<Seq<BindingModel>>,
    path: PathModel,
    fields: Seq<FieldValueModel>,
) -> Result<ValueModel, ErrorModel> {
    match spec_resolve(t, start, ls, path, Namespace::Type) {
        Ok(res) => match res {
            ResolutionModel::Type { module, index } => spec_make_struct(
                t[module].types[index],
                TypeRefModel { module, index },
                fields,
            ),
            _ => Err(
                ErrorModel::ShapeMismatch {
                    expected: ShapeDescModel::Struct { fields: fields.len() as int },
                    given: ShapeDescModel::Scalar,
                },
            ),
        },
        Err(e) => Err(e),
    }
}

/// Evaluates a struct literal: resolves `path` to a type declaration and
/// constructs the instance with [`make_struct`].
pub fn eval_struct_literal(
    tree: &ModuleTree,
    start: usize,
    locals: &LocalScope,
    path: &PathExpr,
    fields: Vec<FieldValue>,
) -> (r: Result<Value, Error>)
    requires
        tree_wf(tree@),
        start < tree@.len(),
    ensures
        result_model(r) == spec_eval_struct_literal(
            tree@,
            start as int,
            locals@,
            path@,
            views_of_fields(fields@),
        ),
{
    proof {
        crate::value::lemma_views_of_fields(fields@);
        lemma_resolve_target_valid(tree@, start as int, locals@, path@, Namespace::Type);
    }
    match resolve(tree, start, locals, path, Namespace::Type) {
        Ok(Resolution::Type { module, index }) => {
            assert(tree@[module as int] == tree.nodes[module as int]@);
            let decl = &tree.nodes[module].types[index];
            make_struct(decl, TypeRef { module, index }, fields)
        },
        Ok(_) => Err(
            Error::ShapeMismatch {
                expected: ShapeDesc::Struct { fields: fields.len() },
                given: ShapeDesc::Scalar,
            },
        ),
        Err(e) => Err(e),
    }
}

/// What evaluating a tuple-struct literal produces.
pub open spec fn spec_eval_tuple_struct_literal(
    t: Seq<ModuleModel>,
    start: int,
    ls: Seq<Seq<BindingModel>>,
    path: PathModel,
    args: Seq<ValueModel>,
) -> Result<ValueModel, ErrorModel> {
    match spec_resolve(t, start, ls, path, Namespace::Type) {
        Ok(res) => match res {
            ResolutionModel::Type { module, index } => spec_make_tuple_struct(
                t[module].types[index],
                TypeRefModel { module, index },
                args,
            ),
            _ => Err(
                ErrorModel::ShapeMismatch {
                    expected: ShapeDescModel::Tuple { arity: args.len() as int },
                    given: ShapeDescModel::Scalar,
                },
            ),
        },
        Err(e) => Err(e),
    }
}

/// Evaluates a tuple-struct (or unit-struct) literal.
pub fn eval_tuple_struct_literal(
    tree: &ModuleTree,
    start: usize,
    locals: &LocalScope,
    path: &PathExpr,
    args: Vec<Value>,
) -> (r: Result<Value, Error>)
    requires
        tree_wf(tree@),
        start < tree@.len(),
    ensures
        result_model(r) == spec_eval_tuple_struct_literal(
            tree@,
            start as int,
            locals@,
            path@,
            views_of_values(args@),
        ),
{
    proof {
        crate::value::lemma_views_of_values(args@);
        lemma_resolve_target_valid(tree@, start as int, locals@, path@, Namespace::Type);
    }
    match resolve(tree, start, locals, path, Namespace::Type) {
        Ok(Resolution::Type { module, index }) => {
            assert(tree@[module as int] == tree.nodes[module as int]@);
            let decl = &tree.nodes[module].types[index];
            make_tuple_struct(decl, TypeRef { module, index }, args)
        },
        Ok(_) => Err(
            Error::ShapeMismatch {
                expected: ShapeDesc::Tuple { arity: args.len() },
                given: ShapeDesc::Scalar,
            },
        ),
        Err(e) => Err(e),
    }
}

/// What evaluating an enum literal produces.
pub open spec fn spec_eval_enum_literal(
    t: Seq<ModuleModel>,
    start: int,
    ls: Seq<Seq<BindingModel>>,
    path: PathModel,
    variant: int,
    payload: PayloadModel,
) -> Result<ValueModel, ErrorModel> {
    match spec_resolve(t, start, ls, path, Namespace::Type) {
        Ok(res) => match res {
            ResolutionModel::Type { module, index } => spec_make_enum(
                t[module].types[index],
                TypeRefModel { module, index },
                variant,
                payload,
            ),
            _ => Err(
                ErrorModel::ShapeMismatch {
                    expected: ShapeDescModel::Variant { index: variant },
                    given: ShapeDescModel::Scalar,
                },
            ),
        },
        Err(e) => Err(e),
    }
}

/// Evaluates an enum literal: resolves `path` to an enum declaration and
/// constructs the selected variant with [`make_enum`].
pub fn eval_enum_literal(
    tree: &ModuleTree,
    start: usize,
    locals: &LocalScope,
    path: &PathExpr,
    variant: usize,
    payload: Payload,
) -> (r: Result<Value, Error>)
    requires
        tree_wf(tree@),
        start < tree@.len(),
    ensures
        result_model(r) == spec_eval_enum_literal(
            tree@,
            start as int,
            locals@,
            path@,
            variant as int,
            payload@,
        ),
{
    proof {
        lemma_resolve_target_valid(tree@, start as int, locals@, path@, Namespace::Type);
    }
    match resolve(tree, start, locals, path, Namespace::Type) {
        Ok(Resolution::Type { module, index }) => {
            assert(tree@[module as int] == tree.nodes[module as int]@);
            let decl = &tree.nodes[module].types[index];
            make_enum(decl, TypeRef { module, index }, variant, payload)
        },
        Ok(_) => Err(
            Error::ShapeMismatch {
                expected: ShapeDesc::Variant { index: variant },
                given: ShapeDesc::Scalar,
            },
        ),
        Err(e) => Err(e),
    }
}

/// What evaluating a slice expression produces: the path must name a local
/// binding holding an array or slice, which is then sliced to
/// `[start_idx, end_idx)`.
pub open spec fn spec_eval_slice(
    t: Seq<ModuleModel>,
    start: int,
    ls: Seq<Seq<BindingModel>>,
    path: PathModel,
    start_idx: int,
    end_idx: int,
) -> Result<ValueModel, ErrorModel> {
    match spec_resolve(t, start, ls, path, Namespace::Value) {
        Ok(res) => match res {
            ResolutionModel::Local { frame, slot } => spec_slice_place(
                ls,
                frame,
                slot,
                start_idx,
                end_idx,
            ),
            _ => Err(
                ErrorModel::ShapeMismatch {
                    expected: ShapeDescModel::Sequence,
                    given: ShapeDescModel::Scalar,
                },
            ),
        },
        Err(e) => Err(e),
    }
}

/// Evaluates a slice expression: resolves `path` to a local binding and
/// slices the array or slice bound there.
pub fn eval_slice(
    tree: &ModuleTree,
    start: usize,
    locals: &LocalScope,
    path: &PathExpr,
    start_idx: usize,
    end_idx: usize,
) -> (r: Result<Value, Error>)
    requires
        tree_wf(tree@),
        start < tree@.len(),
    ensures
        result_model(r) == spec_eval_slice(
            tree@,
            start as int,
            locals@,
            path@,
            start_idx as int,
            end_idx as int,
        ),
{
    proof {
        lemma_resolve_target_valid(tree@, start as int, locals@, path@, Namespace::Value);
    }
    match resolve(tree, start, locals, path, Namespace::Value) {
        Ok(Resolution::Local { frame, slot }) => slice_place(
            locals,
            frame,
            slot,
            start_idx,
            end_idx,
        ),
        Ok(_) => Err(
            Error::ShapeMismatch { expected: ShapeDesc::Sequence, given: ShapeDesc::Scalar },
        ),
        Err(e) => Err(e),
    }
}

} // verus!
