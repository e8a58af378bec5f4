//! The module tree: an arena of named scopes built once from a stream of
//! declarations and immutable afterwards.
//!
//! Every module is a [`ModuleNode`] stored in [`ModuleTree::nodes`] and named
//! by its index; the crate root sits at index `0`.  Parent links are plain
//! indices (weak references), so the hierarchy stays acyclic by construction:
//! a well-formed tree only ever points from a node to a strictly smaller
//! parent index.  Each module carries three independently keyed tables: its
//! child modules, its value namespace (functions) and its type namespace
//! (structs and enums).

use vstd::prelude::*;

use crate::error::Error;
use crate::error::ErrorModel;

verus! {

/// A function declaration: a name plus an opaque handle onto the executable
/// body the surrounding AST supplied.
#[derive(Debug, Clone, PartialEq, Eq)]
pub struct FunctionDecl {
    pub name: String,
    pub body: usize,
}

/// The mathematical model of a [`FunctionDecl`].
#[verifier::ext_equal]
pub struct FunctionModel {
    pub name: Seq<char>,
    pub body: int,
}

impl View for FunctionDecl {
    type V = FunctionModel;

    open spec fn view(&self) -> FunctionModel {
        FunctionModel { name: self.name@, body: self.body as int }
    }
}

/// One named field of a struct shape: its name, the name of its type, and
/// whether it is public.
#[derive(Debug, Clone, PartialEq, Eq)]
pub struct FieldDecl {
    pub name: String,
    pub ty: String,
    pub public: bool,
}

/// The mathematical model of a [`FieldDecl`].
#[verifier::ext_equal]
pub struct FieldModel {
    pub name: Seq<char>,
    pub ty: Seq<char>,
    pub public: bool,
}

impl View for FieldDecl {
    type V = FieldModel;

    open spec fn view(&self) -> FieldModel {
        FieldModel { name: self.name@, ty: self.ty@, public: self.public }
    }
}

/// The shape of one enum variant.
#[derive(Debug, Clone, PartialEq, Eq)]
pub enum VariantShape {
    /// A variant with no payload.
    Unit,
    /// A variant with positional fields, named here by their type names.
    Tuple { tys: Vec<String> },
    /// A variant with named fields.
    Struct { fields: Vec<FieldDecl> },
}

/// The mathematical model of a [`VariantShape`].
#[verifier::ext_equal]
pub enum VariantShapeModel {
    Unit,
    Tuple { tys: Seq<Seq<char>> },
    Struct { fields: Seq<FieldModel> },
}

impl View for VariantShape {
    type V = VariantShapeModel;

    open spec fn view(&self) -> VariantShapeModel {
        match self {
            VariantShape::Unit => VariantShapeModel::Unit,
            VariantShape::Tuple { tys } => VariantShapeModel::Tuple {
                tys: tys@.map_values(|t: String| t@),
            },
            VariantShape::Struct { fields } => VariantShapeModel::Struct {
                fields: fields@.map_values(|f: FieldDecl| f@),
            },
        }
    }
}

/// One declared enum variant: a name and a payload shape.
#[derive(Debug, Clone, PartialEq, Eq)]
pub struct VariantDecl {
    pub name: String,
    pub shape: VariantShape,
}

/// The mathematical model of a [`VariantDecl`].
#[verifier::ext_equal]
pub struct VariantModel {
    pub name: Seq<char>,
    pub shape: VariantShapeModel,
}

impl View for VariantDecl {
    type V = VariantModel;

    open spec fn view(&self) -> VariantModel {
        VariantModel { name: self.name@, shape: self.shape@ }
    }
}

/// The shape of a declared type.
#[derive(Debug, Clone, PartialEq, Eq)]
pub enum TypeShape {
    /// A unit struct.
    Unit,
    /// A tuple struct with positional fields, named here by their type names.
    Tuple { tys: Vec<String> },
    /// A struct with named fields.
    Struct { fields: Vec<FieldDecl> },
    /// An enum with an ordered list of variants.
    Enum { variants: Vec<VariantDecl> },
}

/// The mathematical model of a [`TypeShape`].
#[verifier::ext_equal]
pub enum TypeShapeModel {
    Unit,
    Tuple { tys: Seq<Seq<char>> },
    Struct { fields: Seq<FieldModel> },
    Enum { variants: Seq<VariantModel> },
}

impl View for TypeShape {
    type V = TypeShapeModel;

    open spec fn view(&self) -> TypeShapeModel {
        match self {
            TypeShape::Unit => TypeShapeModel::Unit,
            TypeShape::Tuple { tys } => TypeShapeModel::Tuple {
                tys: tys@.map_values(|t: String| t@),
            },
            TypeShape::Struct { fields } => TypeShapeModel::Struct {
                fields: fields@.map_values(|f: FieldDecl| f@),
            },
            TypeShape::Enum { variants } => TypeShapeModel::Enum {
                variants: variants@.map_values(|v: VariantDecl| v@),
            },
        }
    }
}

/// A type declaration: a name and a shape.
#[derive(Debug, Clone, PartialEq, Eq)]
pub struct TypeDecl {
    pub name: String,
    pub shape: TypeShape,
}

/// The mathematical model of a [`TypeDecl`].
#[verifier::ext_equal]
pub struct TypeModel {
    pub name: Seq<char>,
    pub shape: TypeShapeModel,
}

impl View for TypeDecl {
    type V = TypeModel;

    open spec fn view(&self) -> TypeModel {
        TypeModel { name: self.name@, shape: self.shape@ }
    }
}

/// One module: its name (empty for the crate root), a weak link to its
/// parent, and its three tables.
#[derive(Debug, Clone, PartialEq, Eq)]
pub struct ModuleNode {
    pub name: String,
    pub parent: Option<usize>,
    pub children: Vec<usize>,
    pub functions: Vec<FunctionDecl>,
    pub types: Vec<TypeDecl>,
}

/// The mathematical model of a [`ModuleNode`].
#[verifier::ext_equal]
pub struct ModuleModel {
    pub name: Seq<char>,
    pub parent: Option<int>,
    pub children: Seq<int>,
    pub functions: Seq<FunctionModel>,
    pub types: Seq<TypeModel>,
}

impl View for ModuleNode {
    type V = ModuleModel;

    open spec fn view(&self) -> ModuleModel {
        ModuleModel {
            name: self.name@,
            parent: match self.parent {
                Some(p) => Some(p as int),
                None => None,
            },
            children: self.children@.map_values(|c: usize| c as int),
            functions: self.functions@.map_values(|f: FunctionDecl| f@),
            types: self.types@.map_values(|t: TypeDecl| t@),
        }
    }
}

/// The whole arena.  A tree is only meaningful when [`tree_wf`] holds of its
/// model; [`build`] establishes that and the tree is read-only afterwards.
#[derive(Debug, Clone, PartialEq, Eq)]
pub struct ModuleTree {
    pub nodes: Vec<ModuleNode>,
}

impl View for ModuleTree {
    type V = Seq<ModuleModel>;

    open spec fn view(&self) -> Seq<ModuleModel> {
        self.nodes@.map_values(|n: ModuleNode| n@)
    }
}

/// The parent link of a non-root node points strictly downwards in the
/// arena, and the node is registered in its parent's child table.
pub open spec fn parent_ok(t: Seq<ModuleModel>, i: int) -> bool {
    t[i].parent matches Some(p) && 0 <= p < i && t[p].children.contains(i)
}

/// The `j`-th child entry of module `i` names a valid non-root node whose
/// parent link points back to `i`.
pub open spec fn child_entry_ok(t: Seq<ModuleModel>, i: int, j: int) -> bool {
    let c = t[i].children[j];
    0 < c < t.len() && t[c].parent == Some(i)
}

/// Every child entry of module `i` is valid, and within each of the three
/// tables of module `i` the names are pairwise distinct.
pub open spec fn module_ok(t: Seq<ModuleModel>, i: int) -> bool {
    &&& forall|j: int| 0 <= j < t[i].children.len() ==> #[trigger] child_entry_ok(t, i, j)
    &&& forall|j: int, k: int|
        0 <= j < k < t[i].children.len() ==> t[t[i].children[j]].name != t[t[i].children[k]].name
    &&& forall|j: int, k: int|
        0 <= j < k < t[i].functions.len() ==> t[i].functions[j].name != t[i].functions[k].name
    &&& forall|j: int, k: int|
        0 <= j < k < t[i].types.len() ==> t[i].types[j].name != t[i].types[k].name
}

/// Well-formedness of a module tree: node `0` is the unnamed crate root, all
/// other nodes hang below it by strictly decreasing parent links, child
/// tables and parent links agree, and names are unique per namespace per
/// module.
pub open spec fn tree_wf(t: Seq<ModuleModel>) -> bool {
    &&& 1 <= t.len()
    &&& t[0].parent is None
    &&& t[0].name == Seq::<char>::empty()
    &&& forall|i: int| 1 <= i < t.len() ==> #[trigger] parent_ok(t, i)
    &&& forall|i: int| 0 <= i < t.len() ==> #[trigger] module_ok(t, i)
}

/// The first function at or after position `j` of `fns` that is named
/// `name`.
pub open spec fn first_function_from(fns: Seq<FunctionModel>, name: Seq<char>, j: int) -> Option<
    int,
>
    decreases fns.len() - j,
{
    if j < 0 || j >= fns.len() {
        None
    } else if fns[j].name == name {
        Some(j)
    } else {
        first_function_from(fns, name, j + 1)
    }
}

/// The index of the function named `name` in module `m`'s value namespace.
pub open spec fn spec_find_function(m: ModuleModel, name: Seq<char>) -> Option<int> {
    first_function_from(m.functions, name, 0)
}

/// The first type at or after position `j` of `tys` that is named `name`.
pub open spec fn first_type_from(tys: Seq<TypeModel>, name: Seq<char>, j: int) -> Option<int>
    decreases tys.len() - j,
{
    if j < 0 || j >= tys.len() {
        None
    } else if tys[j].name == name {
        Some(j)
    } else {
        first_type_from(tys, name, j + 1)
    }
}

/// The index of the type named `name` in module `m`'s type namespace.
pub open spec fn spec_find_type(m: ModuleModel, name: Seq<char>) -> Option<int> {
    first_type_from(m.types, name, 0)
}

/// The first child of module `m` at or after child position `j` that is a
/// valid node named `name`; the result is the child's node index.
pub open spec fn first_child_from(t: Seq<ModuleModel>, m: int, name: Seq<char>, j: int) -> Option<
    int,
>
    decreases t[m].children.len() - j,
{
    if !(0 <= m < t.len()) || j < 0 || j >= t[m].children.len() {
        None
    } else if 0 <= t[m].children[j] < t.len() && t[t[m].children[j]].name == name {
        Some(t[m].children[j])
    } else {
        first_child_from(t, m, name, j + 1)
    }
}

/// The node index of the child module of `m` named `name`.
pub open spec fn spec_find_child(t: Seq<ModuleModel>, m: int, name: Seq<char>) -> Option<int> {
    first_child_from(t, m, name, 0)
}

/// Lifts an `Option<usize>` to its mathematical counterpart.
pub open spec fn opt_model(o: Option<usize>) -> Option<int> {
    match o {
        Some(v) => Some(v as int),
        None => None,
    }
}

impl ModuleTree {
    /// Looks the function named `name` up in module `m`'s value namespace.
    pub fn find_function(&self, m: usize, name: &String) -> (r: Option<usize>)
        requires
            m < self@.len(),
        ensures
            opt_model(r) == spec_find_function(self@[m as int], name@),
            r matches Some(j) ==> j < self@[m as int].functions.len(),
    {
        let fns = &self.nodes[m].functions;
        let n = fns.len();
        for j in 0..n
            invariant
                n == fns.len(),
                fns == self.nodes[m as int].functions,
                m < self@.len(),
                self@[m as int].functions == fns@.map_values(|f: FunctionDecl| f@),
                first_function_from(self@[m as int].functions, name@, 0)
                    == first_function_from(self@[m as int].functions, name@, j as int),
        {
            if fns[j].name == *name {
                assert(self@[m as int].functions[j as int].name == name@);
                return Some(j);
            }
            assert(self@[m as int].functions[j as int].name != name@);
        }
        None
    }

    /// Looks the type named `name` up in module `m`'s type namespace.
    pub fn find_type(&self, m: usize, name: &String) -> (r: Option<usize>)
        requires
            m < self@.len(),
        ensures
            opt_model(r) == spec_find_type(self@[m as int], name@),
            r matches Some(j) ==> j < self@[m as int].types.len(),
    {
        let tys = &self.nodes[m].types;
        let n = tys.len();
        for j in 0..n
            invariant
                n == tys.len(),
                tys == self.nodes[m as int].types,
                m < self@.len(),
                self@[m as int].types == tys@.map_values(|t: TypeDecl| t@),
                first_type_from(self@[m as int].types, name@, 0)
                    == first_type_from(self@[m as int].types, name@, j as int),
        {
            if tys[j].name == *name {
                assert(self@[m as int].types[j as int].name == name@);
                return Some(j);
            }
            assert(self@[m as int].types[j as int].name != name@);
        }
        None
    }

    /// Looks the child module of `m` named `name` up and returns its node
    /// index.
    pub fn find_child(&self, m: usize, name: &String) -> (r: Option<usize>)
        requires
            m < self@.len(),
        ensures
            opt_model(r) == spec_find_child(self@, m as int, name@),
            r matches Some(c) ==> c < self@.len(),
    {
        let n = self.nodes[m].children.len();
        for j in 0..n
            invariant
                m < self@.len(),
                n == self.nodes[m as int].children.len(),
                n == self@[m as int].children.len(),
                first_child_from(self@, m as int, name@, 0)
                    == first_child_from(self@, m as int, name@, j as int),
        {
            let c = self.nodes[m].children[j];
            assert(self@[m as int].children[j as int] == c as int);
            if c < self.nodes.len() {
                if self.nodes[c].name == *name {
                    assert(self@[c as int].name == name@);
                    return Some(c);
                }
                assert(self@[c as int].name != name@);
            }
        }
        None
    }
}

/// One declaration handed to [`build`] by the surrounding parser.  A module
/// declaration receives the next free node index (`1` for the first module
/// declared, and so on); `parent` names the enclosing module by the index so
/// assigned, with `0` for the crate root.
#[derive(Debug, Clone, PartialEq, Eq)]
pub enum Decl {
    /// A `mod` declaration.
    Module { parent: usize, name: String },
    /// A function, entered into the parent's value namespace.
    Function { parent: usize, name: String, body: usize },
    /// A struct or enum, entered into the parent's type namespace; the
    /// `shape` distinguishes the kind.
    Type { parent: usize, name: String, shape: TypeShape },
}

/// The mathematical model of a [`Decl`].
#[verifier::ext_equal]
pub enum DeclModel {
    Module { parent: int, name: Seq<char> },
    Function { parent: int, name: Seq<char>, body: int },
    Type { parent: int, name: Seq<char>, shape: TypeShapeModel },
}

impl View for Decl {
    type V = DeclModel;

    open spec fn view(&self) -> DeclModel {
        match self {
            Decl::Module { parent, name } => DeclModel::Module {
                parent: *parent as int,
                name: name@,
            },
            Decl::Function { parent, name, body } => DeclModel::Function {
                parent: *parent as int,
                name: name@,
                body: *body as int,
            },
            Decl::Type { parent, name, shape } => DeclModel::Type {
                parent: *parent as int,
                name: name@,
                shape: shape@,
            },
        }
    }
}

/// The enclosing module a declaration names.
pub open spec fn decl_parent(d: DeclModel) -> int {
    match d {
        DeclModel::Module { parent, .. } => parent,
        DeclModel::Function { parent, .. } => parent,
        DeclModel::Type { parent, .. } => parent,
    }
}

/// The name a declaration introduces.
pub open spec fn decl_name(d: DeclModel) -> Seq<char> {
    match d {
        DeclModel::Module { name, .. } => name,
        DeclModel::Function { name, .. } => name,
        DeclModel::Type { name, .. } => name,
    }
}

/// How many module declarations `ds` holds.
pub open spec fn module_count(ds: Seq<DeclModel>) -> int
    decreases ds.len(),
{
    if ds.len() == 0 {
        0
    } else {
        module_count(ds.drop_last()) + if ds.last() is Module {
            1int
        } else {
            0int
        }
    }
}

/// Two declarations collide when they occupy the same name in the same
/// namespace of the same module.  Shadowing across namespaces is allowed: a
/// function and a struct may share a name.
pub open spec fn collides(a: DeclModel, b: DeclModel) -> bool {
    decl_parent(a) == decl_parent(b) && decl_name(a) == decl_name(b) && ((a is Module && b
        is Module) || (a is Function && b is Function) || (a is Type && b is Type))
}

/// The first declaration position at or after `j` that collides with an
/// earlier declaration.
pub open spec fn first_collider_from(ds: Seq<DeclModel>, j: int) -> Option<int>
    decreases ds.len() - j,
{
    if j < 0 || j >= ds.len() {
        None
    } else if exists|i: int| 0 <= i < j && collides(ds[i], ds[j]) {
        Some(j)
    } else {
        first_collider_from(ds, j + 1)
    }
}

/// The position of the first duplicate declaration, if any.
pub open spec fn first_collider(ds: Seq<DeclModel>) -> Option<int> {
    first_collider_from(ds, 0)
}

/// A declaration stream is coherent when every declaration names an
/// enclosing module that exists by the time it is processed: node `0`, or
/// one of the modules declared earlier in the stream.
pub open spec fn decl_parents_valid(ds: Seq<DeclModel>) -> bool {
    forall|k: int|
        0 <= k < ds.len() ==> 0 <= decl_parent(#[trigger] ds[k]) <= module_count(ds.take(k))
}

/// The ordered contents of module `m`'s value namespace once the whole
/// stream `ds` is processed.
pub open spec fn functions_of(ds: Seq<DeclModel>, m: int) -> Seq<FunctionModel>
    decreases ds.len(),
{
    if ds.len() == 0 {
        Seq::empty()
    } else {
        let pre = functions_of(ds.drop_last(), m);
        match ds.last() {
            DeclModel::Function { parent, name, body } => if parent == m {
                pre.push(FunctionModel { name, body })
            } else {
                pre
            },
            _ => pre,
        }
    }
}

/// The ordered contents of module `m`'s type namespace once the whole
/// stream `ds` is processed.
pub open spec fn types_of(ds: Seq<DeclModel>, m: int) -> Seq<TypeModel>
    decreases ds.len(),
{
    if ds.len() == 0 {
        Seq::empty()
    } else {
        let pre = types_of(ds.drop_last(), m);
        match ds.last() {
            DeclModel::Type { parent, name, shape } => if parent == m {
                pre.push(TypeModel { name, shape })
            } else {
                pre
            },
            _ => pre,
        }
    }
}

/// The ordered child table of module `m` once the whole stream `ds` is
/// processed: the node indices handed to the module declarations whose
/// parent is `m`.
pub open spec fn children_of(ds: Seq<DeclModel>, m: int) -> Seq<int>
    decreases ds.len(),
{
    if ds.len() == 0 {
        Seq::empty()
    } else {
        let pre = children_of(ds.drop_last(), m);
        match ds.last() {
            DeclModel::Module { parent, .. } => if parent == m {
                pre.push(1 + module_count(ds.drop_last()))
            } else {
                pre
            },
            _ => pre,
        }
    }
}

/// The names of the child modules of `m`, in declaration order; entry `j`
/// names the node `children_of(ds, m)[j]`.
pub open spec fn child_names_of(ds: Seq<DeclModel>, m: int) -> Seq<Seq<char>>
    decreases ds.len(),
{
    if ds.len() == 0 {
        Seq::empty()
    } else {
        let pre = child_names_of(ds.drop_last(), m);
        match ds.last() {
            DeclModel::Module { parent, name } => if parent == m {
                pre.push(name)
            } else {
                pre
            },
            _ => pre,
        }
    }
}

/// `d` declares a function named `n` in module `m`.
pub open spec fn is_function_named(d: DeclModel, m: int, n: Seq<char>) -> bool {
    d matches DeclModel::Function { parent, name, .. } && parent == m && name == n
}

/// `d` declares a type named `n` in module `m`.
pub open spec fn is_type_named(d: DeclModel, m: int, n: Seq<char>) -> bool {
    d matches DeclModel::Type { parent, name, .. } && parent == m && name == n
}

/// `d` declares a module named `n` inside module `m`.
pub open spec fn is_module_named(d: DeclModel, m: int, n: Seq<char>) -> bool {
    d matches DeclModel::Module { parent, name } && parent == m && name == n
}

/// No two declarations of `ds` collide.
pub open spec fn no_collision(ds: Seq<DeclModel>) -> bool {
    forall|i: int, j: int| 0 <= i < j < ds.len() ==> !(#[trigger] collides(ds[i], ds[j]))
}

/// When the scan finds no collider from `j0` on, no pair with its later
/// member at or past `j0` collides.
proof fn lemma_no_collision_from(ds: Seq<DeclModel>, j0: int)
    requires
        0 <= j0,
        first_collider_from(ds, j0) is None,
    ensures
        forall|i: int, j: int|
            0 <= i < j < ds.len() && j0 <= j ==> !(#[trigger] collides(ds[i], ds[j])),
    decreases ds.len() - j0,
{
    if j0 < ds.len() {
        lemma_no_collision_from(ds, j0 + 1);
    }
}

/// Every entry of `functions_of` comes from a function declaration.
proof fn lemma_functions_of_source(ds: Seq<DeclModel>, m: int, j: int)
    requires
        0 <= j < functions_of(ds, m).len(),
    ensures
        exists|i: int|
            0 <= i < ds.len() && is_function_named(#[trigger] ds[i], m, functions_of(ds, m)[j].name),
    decreases ds.len(),
{
    let pre = ds.drop_last();
    let n = functions_of(ds, m)[j].name;
    if ds.last() matches DeclModel::Function { parent, name, .. } && parent == m && j
        == functions_of(ds, m).len() - 1 {
        assert(is_function_named(ds[ds.len() - 1], m, n));
    } else {
        lemma_functions_of_source(pre, m, j);
        let i = choose|i: int|
            0 <= i < pre.len() && is_function_named(
                #[trigger] pre[i],
                m,
                functions_of(pre, m)[j].name,
            );
        assert(ds[i] == pre[i]);
        assert(is_function_named(ds[i], m, n));
    }
}

/// Every function declaration of `ds` has an entry of its name in its
/// module's table: together with the reachability of every table entry,
/// this is the half of the reachability law that starts from the
/// declaration stream.
pub proof fn lemma_functions_of_covers(ds: Seq<DeclModel>, m: int, i: int)
    requires
        0 <= i < ds.len(),
        ds[i] is Function,
        decl_parent(ds[i]) == m,
    ensures
        exists|j: int|
            0 <= j < functions_of(ds, m).len() && (#[trigger] functions_of(ds, m)[j]).name
                == decl_name(ds[i]),
    decreases ds.len(),
{
    let pre = ds.drop_last();
    if i == ds.len() - 1 {
        let j = functions_of(ds, m).len() - 1;
        assert(functions_of(ds, m)[j].name == decl_name(ds[i]));
    } else {
        assert(pre[i] == ds[i]);
        lemma_functions_of_covers(pre, m, i);
        let j = choose|j: int|
            0 <= j < functions_of(pre, m).len() && (#[trigger] functions_of(pre, m)[j]).name
                == decl_name(pre[i]);
        assert(functions_of(ds, m)[j].name == decl_name(ds[i]));
    }
}

/// Without collisions, the entries of a value namespace have pairwise
/// distinct names.
proof fn lemma_functions_of_distinct(ds: Seq<DeclModel>, m: int)
    requires
        no_collision(ds),
    ensures
        forall|j: int, k: int|
            0 <= j < k < functions_of(ds, m).len() ==> (#[trigger] functions_of(ds, m)[j]).name != (
            #[trigger] functions_of(ds, m)[k]).name,
    decreases ds.len(),
{
    if ds.len() > 0 {
        let pre = ds.drop_last();
        assert forall|i: int, j: int| 0 <= i < j < pre.len() implies !(#[trigger] collides(
            pre[i],
            pre[j],
        )) by {
            assert(pre[i] == ds[i]);
            assert(pre[j] == ds[j]);
        }
        lemma_functions_of_distinct(pre, m);
        match ds.last() {
            DeclModel::Function { parent, name, .. } => {
                if parent == m {
                    assert forall|j: int| 0 <= j < functions_of(pre, m).len() implies (
                    #[trigger] functions_of(pre, m)[j]).name != name by {
                        if functions_of(pre, m)[j].name == name {
                            lemma_functions_of_source(pre, m, j);
                            let i = choose|i: int|
                                0 <= i < pre.len() && is_function_named(
                                    #[trigger] pre[i],
                                    m,
                                    functions_of(pre, m)[j].name,
                                );
                            assert(ds[i] == pre[i]);
                            assert(collides(ds[i], ds[ds.len() - 1]));
                        }
                    }
                }
            },
            _ => {},
        }
    }
}

/// Every entry of `types_of` comes from a type declaration.
proof fn lemma_types_of_source(ds: Seq<DeclModel>, m: int, j: int)
    requires
        0 <= j < types_of(ds, m).len(),
    ensures
        exists|i: int|
            0 <= i < ds.len() && is_type_named(#[trigger] ds[i], m, types_of(ds, m)[j].name),
    decreases ds.len(),
{
    let pre = ds.drop_last();
    let n = types_of(ds, m)[j].name;
    if ds.last() matches DeclModel::Type { parent, name, .. } && parent == m && j == types_of(
        ds,
        m,
    ).len() - 1 {
        assert(is_type_named(ds[ds.len() - 1], m, n));
    } else {
        lemma_types_of_source(pre, m, j);
        let i = choose|i: int|
            0 <= i < pre.len() && is_type_named(#[trigger] pre[i], m, types_of(pre, m)[j].name);
        assert(ds[i] == pre[i]);
        assert(is_type_named(ds[i], m, n));
    }
}

/// Every type declaration of `ds` has an entry of its name in its module's
/// table: the type-namespace half of the same law.
pub proof fn lemma_types_of_covers(ds: Seq<DeclModel>, m: int, i: int)
    requires
        0 <= i < ds.len(),
        ds[i] is Type,
        decl_parent(ds[i]) == m,
    ensures
        exists|j: int|
            0 <= j < types_of(ds, m).len() && (#[trigger] types_of(ds, m)[j]).name == decl_name(
                ds[i],
            ),
    decreases ds.len(),
{
    let pre = ds.drop_last();
    if i == ds.len() - 1 {
        let j = types_of(ds, m).len() - 1;
        assert(types_of(ds, m)[j].name == decl_name(ds[i]));
    } else {
        assert(pre[i] == ds[i]);
        lemma_types_of_covers(pre, m, i);
        let j = choose|j: int|
            0 <= j < types_of(pre, m).len() && (#[trigger] types_of(pre, m)[j]).name == decl_name(
                pre[i],
            );
        assert(types_of(ds, m)[j].name == decl_name(ds[i]));
    }
}

/// Without collisions, the entries of a type namespace have pairwise
/// distinct names.
proof fn lemma_types_of_distinct(ds: Seq<DeclModel>, m: int)
    requires
        no_collision(ds),
    ensures
        forall|j: int, k: int|
            0 <= j < k < types_of(ds, m).len() ==> (#[trigger] types_of(ds, m)[j]).name != (
            #[trigger] types_of(ds, m)[k]).name,
    decreases ds.len(),
{
    if ds.len() > 0 {
        let pre = ds.drop_last();
        assert forall|i: int, j: int| 0 <= i < j < pre.len() implies !(#[trigger] collides(
            pre[i],
            pre[j],
        )) by {
            assert(pre[i] == ds[i]);
            assert(pre[j] == ds[j]);
        }
        lemma_types_of_distinct(pre, m);
        match ds.last() {
            DeclModel::Type { parent, name, .. } => {
                if parent == m {
                    assert forall|j: int| 0 <= j < types_of(pre, m).len() implies (
                    #[trigger] types_of(pre, m)[j]).name != name by {
                        if types_of(pre, m)[j].name == name {
                            lemma_types_of_source(pre, m, j);
                            let i = choose|i: int|
                                0 <= i < pre.len() && is_type_named(
                                    #[trigger] pre[i],
                                    m,
                                    types_of(pre, m)[j].name,
                                );
                            assert(ds[i] == pre[i]);
                            assert(collides(ds[i], ds[ds.len() - 1]));
                        }
                    }
                }
            },
            _ => {},
        }
    }
}

/// Every child name comes from a module declaration.
proof fn lemma_child_names_source(ds: Seq<DeclModel>, m: int, j: int)
    requires
        0 <= j < child_names_of(ds, m).len(),
    ensures
        exists|i: int|
            0 <= i < ds.len() && is_module_named(#[trigger] ds[i], m, child_names_of(ds, m)[j]),
    decreases ds.len(),
{
    let pre = ds.drop_last();
    let n = child_names_of(ds, m)[j];
    if ds.last() matches DeclModel::Module { parent, name } && parent == m && j == child_names_of(
        ds,
        m,
    ).len() - 1 {
        assert(is_module_named(ds[ds.len() - 1], m, n));
    } else {
        lemma_child_names_source(pre, m, j);
        let i = choose|i: int|
            0 <= i < pre.len() && is_module_named(#[trigger] pre[i], m, child_names_of(pre, m)[j]);
        assert(ds[i] == pre[i]);
        assert(is_module_named(ds[i], m, n));
    }
}

/// Without collisions, sibling modules have pairwise distinct names.
proof fn lemma_child_names_distinct(ds: Seq<DeclModel>, m: int)
    requires
        no_collision(ds),
    ensures
        forall|j: int, k: int|
            0 <= j < k < child_names_of(ds, m).len() ==> (#[trigger] child_names_of(ds, m)[j]) != (
            #[trigger] child_names_of(ds, m)[k]),
    decreases ds.len(),
{
    if ds.len() > 0 {
        let pre = ds.drop_last();
        assert forall|i: int, j: int| 0 <= i < j < pre.len() implies !(#[trigger] collides(
            pre[i],
            pre[j],
        )) by {
            assert(pre[i] == ds[i]);
            assert(pre[j] == ds[j]);
        }
        lemma_child_names_distinct(pre, m);
        match ds.last() {
            DeclModel::Module { parent, name } => {
                if parent == m {
                    assert forall|j: int| 0 <= j < child_names_of(pre, m).len() implies (
                    #[trigger] child_names_of(pre, m)[j]) != name by {
                        if child_names_of(pre, m)[j] == name {
                            lemma_child_names_source(pre, m, j);
                            let i = choose|i: int|
                                0 <= i < pre.len() && is_module_named(
                                    #[trigger] pre[i],
                                    m,
                                    child_names_of(pre, m)[j],
                                );
                            assert(ds[i] == pre[i]);
                            assert(collides(ds[i], ds[ds.len() - 1]));
                        }
                    }
                }
            },
            _ => {},
        }
    }
}

/// A module nothing declares into has empty tables.
proof fn lemma_tables_empty(ds: Seq<DeclModel>, m: int)
    requires
        forall|i: int| 0 <= i < ds.len() ==> decl_parent(#[trigger] ds[i]) != m,
    ensures
        functions_of(ds, m) == Seq::<FunctionModel>::empty(),
        types_of(ds, m) == Seq::<TypeModel>::empty(),
        children_of(ds, m) == Seq::<int>::empty(),
        child_names_of(ds, m) == Seq::<Seq<char>>::empty(),
    decreases ds.len(),
{
    if ds.len() > 0 {
        let pre = ds.drop_last();
        assert forall|i: int| 0 <= i < pre.len() implies decl_parent(#[trigger] pre[i]) != m by {
            assert(pre[i] == ds[i]);
        }
        assert(decl_parent(ds[ds.len() - 1]) != m);
        lemma_tables_empty(pre, m);
    }
}

/// A module count is never negative.
proof fn lemma_module_count_nonneg(ds: Seq<DeclModel>)
    ensures
        module_count(ds) >= 0,
    decreases ds.len(),
{
    if ds.len() > 0 {
        lemma_module_count_nonneg(ds.drop_last());
    }
}

/// Module counts grow along prefixes.
proof fn lemma_module_count_monotone(ds: Seq<DeclModel>, a: int, b: int)
    requires
        0 <= a <= b <= ds.len(),
    ensures
        0 <= module_count(ds.take(a)) <= module_count(ds.take(b)),
    decreases b - a,
{
    if a == b {
        lemma_module_count_nonneg(ds.take(a));
    } else {
        lemma_module_count_monotone(ds, a, b - 1);
        assert(ds.take(b).drop_last() =~= ds.take(b - 1));
    }
}

/// The scan of `first_function_from` stops at the first match.
proof fn lemma_first_function_from_finds(fns: Seq<FunctionModel>, n: Seq<char>, j: int, jc: int)
    requires
        0 <= j <= jc < fns.len(),
        fns[jc].name == n,
        forall|x: int| j <= x < jc ==> (#[trigger] fns[x]).name != n,
    ensures
        first_function_from(fns, n, j) == Some(jc),
    decreases jc - j,
{
    if j < jc {
        lemma_first_function_from_finds(fns, n, j + 1, jc);
    }
}

/// In a table with distinct names, looking a declared name up finds exactly
/// its own entry.
pub proof fn lemma_find_function_unique(mm: ModuleModel, k: int)
    requires
        0 <= k < mm.functions.len(),
        forall|j: int, l: int|
            0 <= j < l < mm.functions.len() ==> (#[trigger] mm.functions[j]).name != (
            #[trigger] mm.functions[l]).name,
    ensures
        spec_find_function(mm, mm.functions[k].name) == Some(k),
{
    lemma_first_function_from_finds(mm.functions, mm.functions[k].name, 0, k);
}

/// The scan of `first_type_from` stops at the first match.
proof fn lemma_first_type_from_finds(tys: Seq<TypeModel>, n: Seq<char>, j: int, jc: int)
    requires
        0 <= j <= jc < tys.len(),
        tys[jc].name == n,
        forall|x: int| j <= x < jc ==> (#[trigger] tys[x]).name != n,
    ensures
        first_type_from(tys, n, j) == Some(jc),
    decreases jc - j,
{
    if j < jc {
        lemma_first_type_from_finds(tys, n, j + 1, jc);
    }
}

/// In a table with distinct names, looking a declared name up finds exactly
/// its own entry.
pub proof fn lemma_find_type_unique(mm: ModuleModel, k: int)
    requires
        0 <= k < mm.types.len(),
        forall|j: int, l: int|
            0 <= j < l < mm.types.len() ==> (#[trigger] mm.types[j]).name != (
            #[trigger] mm.types[l]).name,
    ensures
        spec_find_type(mm, mm.types[k].name) == Some(k),
{
    lemma_first_type_from_finds(mm.types, mm.types[k].name, 0, k);
}

/// The scan of `first_child_from` stops at the first match.
proof fn lemma_first_child_from_finds(t: Seq<ModuleModel>, p: int, n: Seq<char>, j: int, jc: int)
    requires
        0 <= p < t.len(),
        0 <= j <= jc < t[p].children.len(),
        forall|x: int| 0 <= x < t[p].children.len() ==> #[trigger] child_entry_ok(t, p, x),
        t[t[p].children[jc]].name == n,
        forall|x: int| j <= x < jc ==> t[(#[trigger] t[p].children[x])].name != n,
    ensures
        first_child_from(t, p, n, j) == Some(t[p].children[jc]),
    decreases jc - j,
{
    assert(child_entry_ok(t, p, j));
    if j < jc {
        lemma_first_child_from_finds(t, p, n, j + 1, jc);
    }
}

/// In a well-formed tree, looking a child module's name up in its parent
/// finds exactly that child.
pub proof fn lemma_find_child_unique(t: Seq<ModuleModel>, p: int, c: int)
    requires
        tree_wf(t),
        0 <= p < t.len(),
        t[p].children.contains(c),
    ensures
        0 < c < t.len(),
        spec_find_child(t, p, t[c].name) == Some(c),
{
    assert(module_ok(t, p));
    let jc = choose|j: int| 0 <= j < t[p].children.len() && t[p].children[j] == c;
    assert(child_entry_ok(t, p, jc));
    assert forall|x: int| 0 <= x < jc implies t[(#[trigger] t[p].children[x])].name
        != t[c].name by {
        assert(child_entry_ok(t, p, x));
    }
    lemma_first_child_from_finds(t, p, t[c].name, 0, jc);
}

/// Two declarations collide exactly when [`collides`] says so.
fn collides_exec(a: &Decl, b: &Decl) -> (r: bool)
    ensures
        r == collides(a@, b@),
{
    match (a, b) {
        (Decl::Module { parent: pa, name: na }, Decl::Module { parent: pb, name: nb }) => *pa == *pb
            && *na == *nb,
        (
            Decl::Function { parent: pa, name: na, .. },
            Decl::Function { parent: pb, name: nb, .. },
        ) => *pa == *pb && *na == *nb,
        (Decl::Type { parent: pa, name: na, .. }, Decl::Type { parent: pb, name: nb, .. }) => *pa
            == *pb && *na == *nb,
        _ => false,
    }
}

/// The name a declaration introduces, as a fresh `String`.
fn decl_name_exec(d: &Decl) -> (r: String)
    ensures
        r@ == decl_name(d@),
{
    match d {
        Decl::Module { name, .. } => name.clone(),
        Decl::Function { name, .. } => name.clone(),
        Decl::Type { name, .. } => name.clone(),
    }
}

/// Deep-copies a vector of type names.
fn clone_strings(v: &Vec<String>) -> (r: Vec<String>)
    ensures
        r@ == v@,
{
    let mut r: Vec<String> = Vec::new();
    let n = v.len();
    for i in 0..n
        invariant
            n == v.len(),
            r@ =~= v@.take(i as int),
    {
        r.push(v[i].clone());
        proof {
            assert(v@.take(i as int + 1) =~= v@.take(i as int).push(v@[i as int]));
        }
    }
    proof {
        assert(v@.take(n as int) =~= v@);
    }
    r
}

/// Deep-copies one field declaration.
fn clone_field(f: &FieldDecl) -> (r: FieldDecl)
    ensures
        r == *f,
{
    FieldDecl { name: f.name.clone(), ty: f.ty.clone(), public: f.public }
}

/// Deep-copies a vector of field declarations.
fn clone_fields(v: &Vec<FieldDecl>) -> (r: Vec<FieldDecl>)
    ensures
        r@ == v@,
{
    let mut r: Vec<FieldDecl> = Vec::new();
    let n = v.len();
    for i in 0..n
        invariant
            n == v.len(),
            r@ =~= v@.take(i as int),
    {
        r.push(clone_field(&v[i]));
        proof {
            assert(v@.take(i as int + 1) =~= v@.take(i as int).push(v@[i as int]));
        }
    }
    proof {
        assert(v@.take(n as int) =~= v@);
    }
    r
}

/// Deep-copies one variant declaration.
fn clone_variant(v: &VariantDecl) -> (r: VariantDecl)
    ensures
        r@ == v@,
{
    let shape = match &v.shape {
        VariantShape::Unit => VariantShape::Unit,
        VariantShape::Tuple { tys } => VariantShape::Tuple { tys: clone_strings(tys) },
        VariantShape::Struct { fields } => VariantShape::Struct { fields: clone_fields(fields) },
    };
    assert(shape@ == v.shape@);
    VariantDecl { name: v.name.clone(), shape }
}

/// Deep-copies a vector of variant declarations.
fn clone_variants(v: &Vec<VariantDecl>) -> (r: Vec<VariantDecl>)
    ensures
        r@.map_values(|x: VariantDecl| x@) == v@.map_values(|x: VariantDecl| x@),
{
    let mut r: Vec<VariantDecl> = Vec::new();
    let n = v.len();
    for i in 0..n
        invariant
            n == v.len(),
            r@.len() == i,
            forall|j: int| 0 <= j < i ==> (#[trigger] r@[j])@ == v@[j]@,
    {
        r.push(clone_variant(&v[i]));
    }
    proof {
        assert(r@.map_values(|x: VariantDecl| x@) =~= v@.map_values(|x: VariantDecl| x@));
    }
    r
}

/// Deep-copies a type shape.
fn clone_shape(s: &TypeShape) -> (r: TypeShape)
    ensures
        r@ == s@,
{
    match s {
        TypeShape::Unit => TypeShape::Unit,
        TypeShape::Tuple { tys } => TypeShape::Tuple { tys: clone_strings(tys) },
        TypeShape::Struct { fields } => TypeShape::Struct { fields: clone_fields(fields) },
        TypeShape::Enum { variants } => TypeShape::Enum { variants: clone_variants(variants) },
    }
}

/// The state of a partial build: after the first `k` declarations, the
/// arena `t` holds exactly what those declarations put there.
spec fn build_state_ok(ds: Seq<DeclModel>, k: int, t: Seq<ModuleModel>) -> bool {
    &&& t.len() == 1 + module_count(ds.take(k))
    &&& t[0].parent is None
    &&& t[0].name == Seq::<char>::empty()
    &&& forall|i: int| 1 <= i < t.len() ==> #[trigger] parent_ok(t, i)
    &&& forall|m: int| 0 <= m < t.len() ==> (#[trigger] t[m].functions) == functions_of(ds.take(k), m)
    &&& forall|m: int| 0 <= m < t.len() ==> (#[trigger] t[m].types) == types_of(ds.take(k), m)
    &&& forall|m: int| 0 <= m < t.len() ==> (#[trigger] t[m].children) == children_of(ds.take(k), m)
    &&& forall|m: int|
        0 <= m < t.len() ==> (#[trigger] child_names_of(ds.take(k), m)).len()
            == t[m].children.len()
    &&& forall|m: int, j: int|
        0 <= m < t.len() && 0 <= j < t[m].children.len() ==> #[trigger] child_entry_ok(t, m, j)
            && t[t[m].children[j]].name == child_names_of(ds.take(k), m)[j]
}

/// Inserting a function declaration preserves the partial-build state.
proof fn lemma_step_function(
    ds: Seq<DeclModel>,
    k: int,
    t_old: Seq<ModuleModel>,
    t_new: Seq<ModuleModel>,
    p: int,
    nm: Seq<char>,
    body: int,
)
    requires
        0 <= k < ds.len(),
        build_state_ok(ds, k, t_old),
        ds[k] == (DeclModel::Function { parent: p, name: nm, body }),
        0 <= p < t_old.len(),
        t_new == t_old.update(
            p,
            ModuleModel {
                functions: t_old[p].functions.push(FunctionModel { name: nm, body }),
                ..t_old[p]
            },
        ),
    ensures
        build_state_ok(ds, k + 1, t_new),
{
    let dsk = ds.take(k);
    let dsk1 = ds.take(k + 1);
    assert(dsk1.drop_last() =~= dsk);
    assert(dsk1.last() == ds[k]);
    assert forall|i: int| 1 <= i < t_new.len() implies #[trigger] parent_ok(t_new, i) by {
        assert(parent_ok(t_old, i));
        let pp = t_old[i].parent->0;
        let w = choose|w: int| 0 <= w < t_old[pp].children.len() && t_old[pp].children[w] == i;
        assert(t_new[pp].children[w] == i);
    }
    assert forall|m: int| 0 <= m < t_new.len() implies (#[trigger] t_new[m].functions)
        == functions_of(dsk1, m) by {
        if m == p {
            assert(functions_of(dsk1, p) == functions_of(dsk, p).push(
                FunctionModel { name: nm, body },
            ));
        } else {
            assert(functions_of(dsk1, m) == functions_of(dsk, m));
        }
    }
    assert forall|m: int| 0 <= m < t_new.len() implies (#[trigger] t_new[m].types) == types_of(
        dsk1,
        m,
    ) by {
        assert(types_of(dsk1, m) == types_of(dsk, m));
    }
    assert forall|m: int| 0 <= m < t_new.len() implies (#[trigger] t_new[m].children)
        == children_of(dsk1, m) by {
        assert(children_of(dsk1, m) == children_of(dsk, m));
    }
    assert forall|m: int| 0 <= m < t_new.len() implies (#[trigger] child_names_of(dsk1, m)).len()
        == t_new[m].children.len() by {
        assert(child_names_of(dsk1, m) == child_names_of(dsk, m));
    }
    assert forall|m: int, j: int|
        0 <= m < t_new.len() && 0 <= j < t_new[m].children.len() implies #[trigger] child_entry_ok(
        t_new,
        m,
        j,
    ) && t_new[t_new[m].children[j]].name == child_names_of(dsk1, m)[j] by {
        assert(child_entry_ok(t_old, m, j));
        assert(child_names_of(dsk1, m) == child_names_of(dsk, m));
        assert(t_old[t_old[m].children[j]].name == child_names_of(dsk, m)[j]);
    }
}

/// Inserting a type declaration preserves the partial-build state.
proof fn lemma_step_type(
    ds: Seq<DeclModel>,
    k: int,
    t_old: Seq<ModuleModel>,
    t_new: Seq<ModuleModel>,
    p: int,
    nm: Seq<char>,
    shape: TypeShapeModel,
)
    requires
        0 <= k < ds.len(),
        build_state_ok(ds, k, t_old),
        ds[k] == (DeclModel::Type { parent: p, name: nm, shape }),
        0 <= p < t_old.len(),
        t_new == t_old.update(
            p,
            ModuleModel { types: t_old[p].types.push(TypeModel { name: nm, shape }), ..t_old[p] },
        ),
    ensures
        build_state_ok(ds, k + 1, t_new),
{
    let dsk = ds.take(k);
    let dsk1 = ds.take(k + 1);
    assert(dsk1.drop_last() =~= dsk);
    assert(dsk1.last() == ds[k]);
    assert forall|i: int| 1 <= i < t_new.len() implies #[trigger] parent_ok(t_new, i) by {
        assert(parent_ok(t_old, i));
        let pp = t_old[i].parent->0;
        let w = choose|w: int| 0 <= w < t_old[pp].children.len() && t_old[pp].children[w] == i;
        assert(t_new[pp].children[w] == i);
    }
    assert forall|m: int| 0 <= m < t_new.len() implies (#[trigger] t_new[m].types) == types_of(
        dsk1,
        m,
    ) by {
        if m == p {
            assert(types_of(dsk1, p) == types_of(dsk, p).push(TypeModel { name: nm, shape }));
        } else {
            assert(types_of(dsk1, m) == types_of(dsk, m));
        }
    }
    assert forall|m: int| 0 <= m < t_new.len() implies (#[trigger] t_new[m].functions)
        == functions_of(dsk1, m) by {
        assert(functions_of(dsk1, m) == functions_of(dsk, m));
    }
    assert forall|m: int| 0 <= m < t_new.len() implies (#[trigger] t_new[m].children)
        == children_of(dsk1, m) by {
        assert(children_of(dsk1, m) == children_of(dsk, m));
    }
    assert forall|m: int| 0 <= m < t_new.len() implies (#[trigger] child_names_of(dsk1, m)).len()
        == t_new[m].children.len() by {
        assert(child_names_of(dsk1, m) == child_names_of(dsk, m));
    }
    assert forall|m: int, j: int|
        0 <= m < t_new.len() && 0 <= j < t_new[m].children.len() implies #[trigger] child_entry_ok(
        t_new,
        m,
        j,
    ) && t_new[t_new[m].children[j]].name == child_names_of(dsk1, m)[j] by {
        assert(child_entry_ok(t_old, m, j));
        assert(child_names_of(dsk1, m) == child_names_of(dsk, m));
        assert(t_old[t_old[m].children[j]].name == child_names_of(dsk, m)[j]);
    }
}

/// Creating a module preserves the partial-build state.
proof fn lemma_step_module(
    ds: Seq<DeclModel>,
    k: int,
    t_old: Seq<ModuleModel>,
    t_new: Seq<ModuleModel>,
    p: int,
    nm: Seq<char>,
)
    requires
        0 <= k < ds.len(),
        decl_parents_valid(ds),
        build_state_ok(ds, k, t_old),
        ds[k] == (DeclModel::Module { parent: p, name: nm }),
        0 <= p < t_old.len(),
        t_new == t_old.update(
            p,
            ModuleModel { children: t_old[p].children.push(t_old.len() as int), ..t_old[p] },
        ).push(
            ModuleModel {
                name: nm,
                parent: Some(p),
                children: Seq::empty(),
                functions: Seq::empty(),
                types: Seq::empty(),
            },
        ),
    ensures
        build_state_ok(ds, k + 1, t_new),
{
    let dsk = ds.take(k);
    let dsk1 = ds.take(k + 1);
    let id = t_old.len() as int;
    assert(dsk1.drop_last() =~= dsk);
    assert(dsk1.last() == ds[k]);
    assert(t_new.len() == 1 + module_count(dsk1));
    assert forall|i: int| 0 <= i < dsk1.len() implies decl_parent(#[trigger] dsk1[i]) != id by {
        assert(dsk1[i] == ds[i]);
        assert(decl_parent(ds[i]) <= module_count(ds.take(i)));
        lemma_module_count_monotone(ds, i, k);
    }
    lemma_tables_empty(dsk1, id);
    assert forall|i: int| 1 <= i < t_new.len() implies #[trigger] parent_ok(t_new, i) by {
        if i < id {
            assert(parent_ok(t_old, i));
            let pp = t_old[i].parent->0;
            let w = choose|w: int| 0 <= w < t_old[pp].children.len() && t_old[pp].children[w] == i;
            assert(t_new[pp].children[w] == i);
        } else {
            assert(t_new[p].children.last() == id);
            assert(t_new[p].children.contains(id));
        }
    }
    assert forall|m: int| 0 <= m < t_new.len() implies (#[trigger] t_new[m].children)
        == children_of(dsk1, m) by {
        if m == id {
            assert(t_new[id].children =~= children_of(dsk1, id));
        } else if m == p {
            assert(children_of(dsk1, p) == children_of(dsk, p).push(1 + module_count(dsk)));
        }
    }
    assert forall|m: int| 0 <= m < t_new.len() implies (#[trigger] t_new[m].functions)
        == functions_of(dsk1, m) by {
        if m == id {
            assert(t_new[id].functions =~= functions_of(dsk1, id));
        }
    }
    assert forall|m: int| 0 <= m < t_new.len() implies (#[trigger] t_new[m].types) == types_of(
        dsk1,
        m,
    ) by {
        if m == id {
            assert(t_new[id].types =~= types_of(dsk1, id));
        }
    }
    assert forall|m: int| 0 <= m < t_new.len() implies (#[trigger] child_names_of(dsk1, m)).len()
        == t_new[m].children.len() by {
        if m == p {
            assert(child_names_of(dsk1, p) == child_names_of(dsk, p).push(nm));
        } else if m == id {
        } else {
            assert(child_names_of(dsk1, m) == child_names_of(dsk, m));
        }
    }
    assert forall|m: int, j: int|
        0 <= m < t_new.len() && 0 <= j < t_new[m].children.len() implies #[trigger] child_entry_ok(
        t_new,
        m,
        j,
    ) && t_new[t_new[m].children[j]].name == child_names_of(dsk1, m)[j] by {
        assert(child_names_of(dsk1, p) == child_names_of(dsk, p).push(nm));
        if m != p && m != id {
            assert(child_names_of(dsk1, m) == child_names_of(dsk, m));
        }
        if m == p && j == t_new[p].children.len() - 1 {
            assert(t_new[p].children[j] == id);
            assert(child_names_of(dsk1, p) == child_names_of(dsk, p).push(nm));
        } else if m != id {
            assert(child_entry_ok(t_old, m, j));
            assert(t_old[t_old[m].children[j]].name == child_names_of(dsk, m)[j]);
            let c = t_old[m].children[j];
            assert(t_new[c].name == t_old[c].name);
        }
    }
}

/// Builds the module tree from a declaration stream, in one top-down pass.
///
/// Succeeds exactly when no two sibling declarations occupy the same name
/// in the same namespace of the same module; the tree then holds, module by
/// module, exactly the declared functions, types and child modules, in
/// declaration order, and is well formed.  On the first duplicate the whole
/// build aborts with `DuplicateDeclaration` naming it, and no partial tree
/// comes back.
pub fn build(decls: &Vec<Decl>) -> (r: Result<ModuleTree, Error>)
    requires
        decl_parents_valid(decls@.map_values(|d: Decl| d@)),
    ensures
        ({
            let ds = decls@.map_values(|d: Decl| d@);
            match r {
                Ok(tree) => {
                    &&& first_collider(ds) is None
                    &&& tree_wf(tree@)
                    &&& tree@.len() == 1 + module_count(ds)
                    &&& forall|m: int|
                        0 <= m < tree@.len() ==> (#[trigger] tree@[m].functions) == functions_of(
                            ds,
                            m,
                        )
                    &&& forall|m: int|
                        0 <= m < tree@.len() ==> (#[trigger] tree@[m].types) == types_of(ds, m)
                    &&& forall|m: int|
                        0 <= m < tree@.len() ==> (#[trigger] tree@[m].children) == children_of(
                            ds,
                            m,
                        )
                    &&& forall|m: int, j: int|
                        0 <= m < tree@.len() && 0 <= j < tree@[m].children.len()
                            ==> tree@[(#[trigger] tree@[m].children[j])].name == child_names_of(
                            ds,
                            m,
                        )[j]
                },
                Err(e) => first_collider(ds) matches Some(j) && e@
                    == (ErrorModel::DuplicateDeclaration { name: decl_name(ds[j]) }),
            }
        }),
{
    let ghost ds = decls@.map_values(|d: Decl| d@);
    let n = decls.len();
    for j in 0..n
        invariant
            n == decls.len(),
            ds == decls@.map_values(|d: Decl| d@),
            first_collider_from(ds, 0) == first_collider_from(ds, j as int),
    {
        for i in 0..j
            invariant
                j < n,
                n == decls.len(),
                ds == decls@.map_values(|d: Decl| d@),
                first_collider_from(ds, 0) == first_collider_from(ds, j as int),
                forall|x: int| 0 <= x < i ==> !(#[trigger] collides(ds[x], ds[j as int])),
        {
            if collides_exec(&decls[i], &decls[j]) {
                proof {
                    assert(collides(ds[i as int], ds[j as int]));
                    assert(first_collider_from(ds, j as int) == Some(j as int));
                }
                return Err(Error::DuplicateDeclaration { name: decl_name_exec(&decls[j]) });
            }
        }
        proof {
            assert(first_collider_from(ds, j as int) == first_collider_from(ds, j as int + 1));
        }
    }
    proof {
        assert(first_collider(ds) is None);
        lemma_no_collision_from(ds, 0);
    }
    let mut nodes: Vec<ModuleNode> = Vec::new();
    nodes.push(
        ModuleNode {
            name: String::new(),
            parent: None,
            children: Vec::new(),
            functions: Vec::new(),
            types: Vec::new(),
        },
    );
    proof {
        let t0 = nodes@.map_values(|nd: ModuleNode| nd@);
        assert(ds.take(0) =~= Seq::<DeclModel>::empty());
        assert(t0[0].children =~= Seq::<int>::empty());
        assert(t0[0].functions =~= Seq::<FunctionModel>::empty());
        assert(t0[0].types =~= Seq::<TypeModel>::empty());
        assert(build_state_ok(ds, 0, t0));
    }
    for k in 0..n
        invariant
            n == decls.len(),
            ds == decls@.map_values(|d: Decl| d@),
            decl_parents_valid(ds),
            no_collision(ds),
            first_collider(ds) is None,
            build_state_ok(ds, k as int, nodes@.map_values(|nd: ModuleNode| nd@)),
    {
        let ghost t_old = nodes@.map_values(|nd: ModuleNode| nd@);
        proof {
            assert(decl_parent(ds[k as int]) <= module_count(ds.take(k as int)));
        }
        match &decls[k] {
            Decl::Module { parent, name } => {
                let p = *parent;
                let id = nodes.len();
                let nm = name.clone();
                let pn = &mut nodes[p];
                pn.children.push(id);
                nodes.push(
                    ModuleNode {
                        name: nm,
                        parent: Some(p),
                        children: Vec::new(),
                        functions: Vec::new(),
                        types: Vec::new(),
                    },
                );
                proof {
                    let t_new = nodes@.map_values(|nd: ModuleNode| nd@);
                    assert(t_new =~~= t_old.update(
                        p as int,
                        ModuleModel {
                            children: t_old[p as int].children.push(t_old.len() as int),
                            ..t_old[p as int]
                        },
                    ).push(
                        ModuleModel {
                            name: name@,
                            parent: Some(p as int),
                            children: Seq::empty(),
                            functions: Seq::empty(),
                            types: Seq::empty(),
                        },
                    ));
                    lemma_step_module(ds, k as int, t_old, t_new, p as int, name@);
                }
            },
            Decl::Function { parent, name, body } => {
                let p = *parent;
                let f = FunctionDecl { name: name.clone(), body: *body };
                let pn = &mut nodes[p];
                pn.functions.push(f);
                proof {
                    let t_new = nodes@.map_values(|nd: ModuleNode| nd@);
                    assert(t_new =~~= t_old.update(
                        p as int,
                        ModuleModel {
                            functions: t_old[p as int].functions.push(
                                FunctionModel { name: name@, body: *body as int },
                            ),
                            ..t_old[p as int]
                        },
                    ));
                    lemma_step_function(ds, k as int, t_old, t_new, p as int, name@, *body as int);
                }
            },
            Decl::Type { parent, name, shape } => {
                let p = *parent;
                let t = TypeDecl { name: name.clone(), shape: clone_shape(shape) };
                assert(t@ == (TypeModel { name: name@, shape: shape@ }));
                let pn = &mut nodes[p];
                pn.types.push(t);
                proof {
                    let t_new = nodes@.map_values(|nd: ModuleNode| nd@);
                    assert(t_new =~~= t_old.update(
                        p as int,
                        ModuleModel {
                            types: t_old[p as int].types.push(
                                TypeModel { name: name@, shape: shape@ },
                            ),
                            ..t_old[p as int]
                        },
                    ));
                    lemma_step_type(ds, k as int, t_old, t_new, p as int, name@, shape@);
                }
            },
        }
    }
    proof {
        assert(ds.take(n as int) =~= ds);
        let t = nodes@.map_values(|nd: ModuleNode| nd@);
        assert(build_state_ok(ds, n as int, t));
        assert forall|m: int| 0 <= m < t.len() implies #[trigger] module_ok(t, m) by {
            lemma_functions_of_distinct(ds, m);
            lemma_types_of_distinct(ds, m);
            lemma_child_names_distinct(ds, m);
            assert(t[m].functions == functions_of(ds, m));
            assert(t[m].types == types_of(ds, m));
            assert(child_names_of(ds, m).len() == t[m].children.len());
            assert forall|j: int, l: int| 0 <= j < l < t[m].children.len() implies t[t[m].children[j]].name
                != t[t[m].children[l]].name by {
                assert(child_entry_ok(t, m, j));
                assert(child_entry_ok(t, m, l));
                assert(t[t[m].children[j]].name == child_names_of(ds, m)[j]);
                assert(t[t[m].children[l]].name == child_names_of(ds, m)[l]);
            }
        }
        assert(tree_wf(t));
        assert forall|m: int| 0 <= m < t.len() implies (#[trigger] t[m].functions) == functions_of(
            ds,
            m,
        ) by {}
        assert forall|m: int| 0 <= m < t.len() implies (#[trigger] t[m].types) == types_of(
            ds,
            m,
        ) by {}
        assert forall|m: int| 0 <= m < t.len() implies (#[trigger] t[m].children) == children_of(
            ds,
            m,
        ) by {}
        assert forall|m: int, j: int|
            0 <= m < t.len() && 0 <= j < t[m].children.len() implies t[(
            #[trigger] t[m].children[j])].name == child_names_of(ds, m)[j] by {
            assert(child_entry_ok(t, m, j));
        }
    }
    Ok(ModuleTree { nodes })
}

} // verus!
