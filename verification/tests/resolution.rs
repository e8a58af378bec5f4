use symres::error::Error;
use symres::resolve::Namespace;
use symres::resolve::PathExpr;
use symres::resolve::Qualifier;
use symres::resolve::Resolution;
use symres::resolve::resolve;
use symres::scope::LocalScope;
use symres::tree::Decl;
use symres::tree::ModuleTree;
use symres::tree::TypeShape;
use symres::tree::build;
use symres::value::Value;

fn s(x: &str) -> String {
    x.to_string()
}

fn path(quals: Vec<Qualifier>, segs: Vec<&str>) -> PathExpr {
    PathExpr { qualifiers: quals, segments: segs.into_iter().map(s).collect() }
}

/// The specimen tree: `root { mod1 { inner { innest { fn f1, fn f2, fn f3 }
/// fn f2 } fn f2 } fn f2 }`.  Module ids: mod1 = 1, inner = 2, innest = 3.
fn specimen_tree() -> ModuleTree {
    let decls = vec![
        Decl::Module { parent: 0, name: s("mod1") },
        Decl::Module { parent: 1, name: s("inner") },
        Decl::Module { parent: 2, name: s("innest") },
        Decl::Function { parent: 3, name: s("f1"), body: 10 },
        Decl::Function { parent: 3, name: s("f2"), body: 11 },
        Decl::Function { parent: 3, name: s("f3"), body: 12 },
        Decl::Function { parent: 2, name: s("f2"), body: 13 },
        Decl::Function { parent: 1, name: s("f2"), body: 14 },
        Decl::Function { parent: 0, name: s("f2"), body: 15 },
    ];
    build(&decls).expect("collision-free declarations must build")
}

fn closure_locals() -> LocalScope {
    let mut locals = LocalScope::new();
    locals.push_frame();
    locals.bind(s("f2"), Value::Byte { val: 0 });
    locals
}

#[test]
fn build_succeeds_without_collisions() {
    let tree = specimen_tree();
    assert_eq!(tree.nodes.len(), 4);
    assert_eq!(tree.nodes[3].functions.len(), 3);
    assert_eq!(tree.nodes[3].functions[1].name, "f2");
}

#[test]
fn build_rejects_duplicate_siblings() {
    let decls = vec![
        Decl::Function { parent: 0, name: s("f"), body: 0 },
        Decl::Function { parent: 0, name: s("f"), body: 1 },
    ];
    match build(&decls) {
        Err(Error::DuplicateDeclaration { name }) => assert_eq!(name, "f"),
        other => panic!("expected a duplicate-declaration error, got {:?}", other),
    }
}

#[test]
fn same_name_in_both_namespaces_is_allowed() {
    let decls = vec![
        Decl::Function { parent: 0, name: s("thing"), body: 0 },
        Decl::Type { parent: 0, name: s("thing"), shape: TypeShape::Unit },
    ];
    assert!(build(&decls).is_ok());
}

#[test]
fn bare_name_resolves_to_local_binding() {
    let tree = specimen_tree();
    let locals = closure_locals();
    let r = resolve(&tree, 3, &locals, &path(vec![], vec!["f2"]), Namespace::Value);
    assert_eq!(r, Ok(Resolution::Local { frame: 0, slot: 0 }));
}

#[test]
fn self_path_resolves_in_current_module() {
    let tree = specimen_tree();
    let locals = closure_locals();
    let r = resolve(
        &tree,
        3,
        &locals,
        &path(vec![Qualifier::SelfQual], vec!["f2"]),
        Namespace::Value,
    );
    assert_eq!(r, Ok(Resolution::Function { module: 3, index: 1 }));
}

#[test]
fn super_path_resolves_in_parent() {
    let tree = specimen_tree();
    let locals = closure_locals();
    let r = resolve(
        &tree,
        3,
        &locals,
        &path(vec![Qualifier::SuperQual { count: 1 }], vec!["f2"]),
        Namespace::Value,
    );
    assert_eq!(r, Ok(Resolution::Function { module: 2, index: 0 }));
}

#[test]
fn double_super_resolves_two_levels_up() {
    let tree = specimen_tree();
    let locals = closure_locals();
    let r = resolve(
        &tree,
        3,
        &locals,
        &path(vec![Qualifier::SuperQual { count: 2 }], vec!["f2"]),
        Namespace::Value,
    );
    assert_eq!(r, Ok(Resolution::Function { module: 1, index: 0 }));
}

#[test]
fn leading_self_never_changes_the_result() {
    let tree = specimen_tree();
    let locals = closure_locals();
    for count in 0..3 {
        let plain = resolve(
            &tree,
            3,
            &locals,
            &path(vec![Qualifier::SuperQual { count }], vec!["f2"]),
            Namespace::Value,
        );
        let with_self = resolve(
            &tree,
            3,
            &locals,
            &path(vec![Qualifier::SelfQual, Qualifier::SuperQual { count }], vec!["f2"]),
            Namespace::Value,
        );
        assert_eq!(plain, with_self);
    }
}

#[test]
fn root_path_resolves_from_crate_root() {
    let tree = specimen_tree();
    let locals = closure_locals();
    let r = resolve(
        &tree,
        3,
        &locals,
        &path(vec![Qualifier::RootQual], vec!["f2"]),
        Namespace::Value,
    );
    assert_eq!(r, Ok(Resolution::Function { module: 0, index: 0 }));
}

#[test]
fn root_path_is_independent_of_start() {
    let tree = specimen_tree();
    let locals = LocalScope::new();
    let p = path(vec![Qualifier::RootQual], vec!["f2"]);
    let from_innest = resolve(&tree, 3, &locals, &p, Namespace::Value);
    let from_root = resolve(&tree, 0, &locals, &p, Namespace::Value);
    assert_eq!(from_innest, from_root);
    assert_eq!(from_root, Ok(Resolution::Function { module: 0, index: 0 }));
}

#[test]
fn too_many_supers_fail_and_never_clamp() {
    let tree = specimen_tree();
    let locals = LocalScope::new();
    let r = resolve(
        &tree,
        3,
        &locals,
        &path(vec![Qualifier::SuperQual { count: 4 }], vec!["f2"]),
        Namespace::Value,
    );
    assert_eq!(r, Err(Error::SuperBeyondRoot));
}

#[test]
fn unknown_segment_reports_unresolved_path() {
    let tree = specimen_tree();
    let locals = LocalScope::new();
    let r = resolve(&tree, 0, &locals, &path(vec![], vec!["nope"]), Namespace::Value);
    match r {
        Err(Error::UnresolvedPath { segment }) => assert_eq!(segment, "nope"),
        other => panic!("expected an unresolved path, got {:?}", other),
    }
}

#[test]
fn multi_segment_path_walks_child_modules() {
    let tree = specimen_tree();
    let locals = closure_locals();
    let r = resolve(
        &tree,
        0,
        &locals,
        &path(vec![], vec!["mod1", "inner", "innest", "f1"]),
        Namespace::Value,
    );
    assert_eq!(r, Ok(Resolution::Function { module: 3, index: 0 }));
}

#[test]
fn bare_multi_segment_path_searches_outward() {
    let tree = specimen_tree();
    let locals = LocalScope::new();
    // From innest, `inner::f2` is not a child of innest; the outward search
    // finds `inner` as a child of mod1.
    let r = resolve(&tree, 3, &locals, &path(vec![], vec!["inner", "f2"]), Namespace::Value);
    assert_eq!(r, Ok(Resolution::Function { module: 2, index: 0 }));
}

#[test]
fn bare_single_segment_without_local_searches_outward() {
    let tree = specimen_tree();
    let locals = LocalScope::new();
    // f3 is only declared in innest itself.
    let r = resolve(&tree, 3, &locals, &path(vec![], vec!["f3"]), Namespace::Value);
    assert_eq!(r, Ok(Resolution::Function { module: 3, index: 2 }));
    // bare f2 without a local binding resolves in the nearest module: innest.
    let r2 = resolve(&tree, 3, &locals, &path(vec![], vec!["f2"]), Namespace::Value);
    assert_eq!(r2, Ok(Resolution::Function { module: 3, index: 1 }));
}

#[test]
fn resolution_is_deterministic() {
    let tree = specimen_tree();
    let locals = closure_locals();
    let p = path(vec![], vec!["f2"]);
    let a = resolve(&tree, 3, &locals, &p, Namespace::Value);
    let b = resolve(&tree, 3, &locals, &p, Namespace::Value);
    assert_eq!(a, b);
}
