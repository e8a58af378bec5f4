//! The path resolver: from a lexical position and a path expression to
//! exactly one declaration or local binding.
//!
//! Resolution follows the scoping rules of the modelled source language:
//!
//! 1. The origin module is the lexical position `start`, or the crate root
//!    for an absolute path.  Qualifiers are applied strictly left to right:
//!    `self` is a no-op, each `super` step moves to the parent (failing with
//!    `SuperBeyondRoot` at the root), a root qualifier jumps to node `0`.
//! 2. A bare single-segment path is first looked up in the local scopes,
//!    innermost first; a hit shadows every module-level declaration,
//!    regardless of namespace.
//! 3. An unqualified path otherwise searches outward — `start`, then its
//!    ancestors up to the root — for the first module exposing the leading
//!    segment: a child module for a multi-segment path, an entry in the
//!    requested namespace for a single segment.
//! 4. Remaining segments walk child modules by name; the final segment is
//!    looked up in the value or type namespace of the module reached.  The
//!    first segment that cannot be found is reported in `UnresolvedPath`.
//!
//! Namespaces are disjoint per module and every rule above is
//! deterministic, so resolution never needs an ambiguity error.

use vstd::prelude::*;

use crate::error::Error;
use crate::error::ErrorModel;
use crate::error::result_model;
use crate::scope::BindingModel;
use crate::scope::LocalScope;
use crate::scope::spec_find_local;
use crate::tree::ModuleModel;
use crate::tree::ModuleNode;
use crate::tree::ModuleTree;
use crate::tree::parent_ok;
use crate::tree::first_child_from;
use crate::tree::first_function_from;
use crate::tree::first_type_from;
use crate::tree::spec_find_child;
use crate::tree::spec_find_function;
use crate::tree::spec_find_type;
use crate::tree::tree_wf;

verus! {

/// One leading path qualifier, applied in the order written.
#[derive(Debug, Clone, Copy, PartialEq, Eq, Structural)]
pub enum Qualifier {
    /// `self`: stay in the current module.
    SelfQual,
    /// `super` repeated `count` times: move `count` modules up.
    SuperQual { count: usize },
    /// A leading `::`: start over from the crate root.
    RootQual,
}

/// Which namespace the final segment is looked up in: the value namespace
/// for call-position expressions, the type namespace for type-position
/// expressions.
#[derive(Debug, Clone, Copy, PartialEq, Eq, Structural)]
pub enum Namespace {
    Value,
    Type,
}

/// A path expression: the qualifiers written before the first identifier,
/// then the identifier segments.
#[derive(Debug, Clone, PartialEq, Eq)]
pub struct PathExpr {
    pub qualifiers: Vec<Qualifier>,
    pub segments: Vec<String>,
}

/// The mathematical model of a [`PathExpr`].
pub struct PathModel {
    pub qualifiers: Seq<Qualifier>,
    pub segments: Seq<Seq<char>>,
}

impl View for PathExpr {
    type V = PathModel;

    open spec fn view(&self) -> PathModel {
        PathModel {
            qualifiers: self.qualifiers@,
            segments: self.segments@.map_values(|s: String| s@),
        }
    }
}

/// What a path resolved to.
#[derive(Debug, Clone, Copy, PartialEq, Eq, Structural)]
pub enum Resolution {
    /// A local binding, by frame and slot.
    Local { frame: usize, slot: usize },
    /// A module, by node index; only a path with no segments names one.
    Module { id: usize },
    /// A function, by owning module and index in its value namespace.
    Function { module: usize, index: usize },
    /// A type, by owning module and index in its type namespace.
    Type { module: usize, index: usize },
}

/// The mathematical model of a [`Resolution`].
pub enum ResolutionModel {
    Local { frame: int, slot: int },
    Module { id: int },
    Function { module: int, index: int },
    Type { module: int, index: int },
}

impl View for Resolution {
    type V = ResolutionModel;

    open spec fn view(&self) -> ResolutionModel {
        match self {
            Resolution::Local { frame, slot } => ResolutionModel::Local {
                frame: *frame as int,
                slot: *slot as int,
            },
            Resolution::Module { id } => ResolutionModel::Module { id: *id as int },
            Resolution::Function { module, index } => ResolutionModel::Function {
                module: *module as int,
                index: *index as int,
            },
            Resolution::Type { module, index } => ResolutionModel::Type {
                module: *module as int,
                index: *index as int,
            },
        }
    }
}

/// Moves `k` modules up from `m`, or fails with `SuperBeyondRoot` when the
/// crate root is passed.
pub open spec fn spec_apply_super(t: Seq<ModuleModel>, m: int, k: int) -> Result<int, ErrorModel>
    decreases k,
{
    if k <= 0 {
        Ok(m)
    } else {
        match t[m].parent {
            Some(p) => spec_apply_super(t, p, k - 1),
            None => Err(ErrorModel::SuperBeyondRoot),
        }
    }
}

/// Applies a qualifier chain to origin `m`, strictly left to right.
pub open spec fn spec_apply_qualifiers(t: Seq<ModuleModel>, m: int, quals: Seq<Qualifier>) -> Result<
    int,
    ErrorModel,
>
    decreases quals.len(),
{
    if quals.len() == 0 {
        Ok(m)
    } else {
        match quals[0] {
            Qualifier::SelfQual => spec_apply_qualifiers(t, m, quals.skip(1)),
            Qualifier::RootQual => spec_apply_qualifiers(t, 0, quals.skip(1)),
            Qualifier::SuperQual { count } => match spec_apply_super(t, m, count as int) {
                Ok(a) => spec_apply_qualifiers(t, a, quals.skip(1)),
                Err(e) => Err(e),
            },
        }
    }
}

/// Walks the remaining segments from module `m`: child modules for the
/// intermediate segments, the requested namespace for the final one.  A
/// path with no segments names the module itself.
pub open spec fn spec_walk(
    t: Seq<ModuleModel>,
    m: int,
    segs: Seq<Seq<char>>,
    ns: Namespace,
) -> Result<ResolutionModel, ErrorModel>
    decreases segs.len(),
{
    if segs.len() == 0 {
        Ok(ResolutionModel::Module { id: m })
    } else if segs.len() == 1 {
        match ns {
            Namespace::Value => match spec_find_function(t[m], segs[0]) {
                Some(j) => Ok(ResolutionModel::Function { module: m, index: j }),
                None => Err(ErrorModel::UnresolvedPath { segment: segs[0] }),
            },
            Namespace::Type => match spec_find_type(t[m], segs[0]) {
                Some(j) => Ok(ResolutionModel::Type { module: m, index: j }),
                None => Err(ErrorModel::UnresolvedPath { segment: segs[0] }),
            },
        }
    } else {
        match spec_find_child(t, m, segs[0]) {
            Some(c) => spec_walk(t, c, segs.skip(1), ns),
            None => Err(ErrorModel::UnresolvedPath { segment: segs[0] }),
        }
    }
}

/// Whether module `m` exposes the leading segment `name`: as a child module
/// for a multi-segment path, as an entry of namespace `ns` for a single
/// segment.
pub open spec fn spec_exposes(
    t: Seq<ModuleModel>,
    m: int,
    name: Seq<char>,
    multi: bool,
    ns: Namespace,
) -> bool {
    if multi {
        spec_find_child(t, m, name) is Some
    } else {
        match ns {
            Namespace::Value => spec_find_function(t[m], name) is Some,
            Namespace::Type => spec_find_type(t[m], name) is Some,
        }
    }
}

/// The outward search of the bare-path rule: the nearest module, from `m`
/// towards the root, that exposes the leading segment.
pub open spec fn spec_outward(
    t: Seq<ModuleModel>,
    m: int,
    name: Seq<char>,
    multi: bool,
    ns: Namespace,
) -> Option<int>
    decreases m,
{
    if !(0 <= m < t.len()) {
        None
    } else if spec_exposes(t, m, name, multi, ns) {
        Some(m)
    } else {
        match t[m].parent {
            Some(p) => if 0 <= p < m {
                spec_outward(t, p, name, multi, ns)
            } else {
                None
            },
            None => None,
        }
    }
}

/// What [`resolve`] returns: the whole resolution rule as one function of
/// the tree, the local scopes and the path.
pub open spec fn spec_resolve(
    t: Seq<ModuleModel>,
    start: int,
    ls: Seq<Seq<BindingModel>>,
    path: PathModel,
    ns: Namespace,
) -> Result<ResolutionModel, ErrorModel> {
    if path.qualifiers.len() == 0 && path.segments.len() == 1 && spec_find_local(
        ls,
        path.segments[0],
    ) is Some {
        match spec_find_local(ls, path.segments[0]) {
            Some((f, j)) => Ok(ResolutionModel::Local { frame: f, slot: j }),
            None => Err(ErrorModel::UnresolvedPath { segment: path.segments[0] }),
        }
    } else if path.qualifiers.len() == 0 && path.segments.len() >= 1 {
        match spec_outward(t, start, path.segments[0], path.segments.len() >= 2, ns) {
            Some(a) => spec_walk(t, a, path.segments, ns),
            None => Err(ErrorModel::UnresolvedPath { segment: path.segments[0] }),
        }
    } else {
        match spec_apply_qualifiers(t, start, path.qualifiers) {
            Ok(origin) => spec_walk(t, origin, path.segments, ns),
            Err(e) => Err(e),
        }
    }
}

/// Moves `k` modules up from `m`.
fn super_steps(tree: &ModuleTree, m: usize, k: usize) -> (r: Result<usize, Error>)
    requires
        tree_wf(tree@),
        m < tree@.len(),
    ensures
        match r {
            Ok(a) => a < tree@.len() && spec_apply_super(tree@, m as int, k as int) == Ok::<
                int,
                ErrorModel,
            >(a as int),
            Err(e) => spec_apply_super(tree@, m as int, k as int) == Err::<int, ErrorModel>(e@),
        },
{
    let mut cur = m;
    for i in 0..k
        invariant
            tree_wf(tree@),
            cur < tree@.len(),
            spec_apply_super(tree@, m as int, k as int) == spec_apply_super(
                tree@,
                cur as int,
                k - i,
            ),
    {
        assert(tree@[cur as int] == tree.nodes[cur as int]@);
        match self_parent(tree, cur) {
            Some(p) => {
                proof {
                    if cur >= 1 {
                        assert(parent_ok(tree@, cur as int));
                    }
                }
                cur = p;
            },
            None => {
                return Err(Error::SuperBeyondRoot);
            },
        }
    }
    Ok(cur)
}

/// Reads the parent link of module `m`.
fn self_parent(tree: &ModuleTree, m: usize) -> (r: Option<usize>)
    requires
        m < tree@.len(),
    ensures
        crate::tree::opt_model(r) == tree@[m as int].parent,
{
    assert(tree@[m as int] == tree.nodes[m as int]@);
    self_parent_of(&tree.nodes[m])
}

/// Reads the parent link of one node.
fn self_parent_of(n: &ModuleNode) -> (r: Option<usize>)
    ensures
        crate::tree::opt_model(r) == n@.parent,
{
    match n.parent {
        Some(p) => Some(p),
        None => None,
    }
}

/// Walks the segments of `path` from module `m`, as step 4 of the
/// resolution rule.
fn walk(tree: &ModuleTree, m: usize, segs: &Vec<String>, ns: Namespace) -> (r: Result<
    Resolution,
    Error,
>)
    requires
        m < tree@.len(),
    ensures
        result_model(r) == spec_walk(tree@, m as int, segs@.map_values(|s: String| s@), ns),
{
    let ghost segsv = segs@.map_values(|s: String| s@);
    let mut cur = m;
    let mut i: usize = 0;
    proof {
        assert(segsv.skip(0) =~= segsv);
    }
    while segs.len() - i >= 2
        invariant
            i <= segs.len(),
            cur < tree@.len(),
            segsv == segs@.map_values(|s: String| s@),
            spec_walk(tree@, m as int, segsv, ns) == spec_walk(
                tree@,
                cur as int,
                segsv.skip(i as int),
                ns,
            ),
        decreases segs.len() - i,
    {
        proof {
            assert(segsv.skip(i as int)[0] == segsv[i as int]);
            assert(segsv.skip(i as int).skip(1) =~= segsv.skip(i as int + 1));
        }
        match tree.find_child(cur, &segs[i]) {
            Some(c) => {
                cur = c;
                i = i + 1;
            },
            None => {
                return Err(Error::UnresolvedPath { segment: segs[i].clone() });
            },
        }
    }
    if i == segs.len() {
        return Ok(Resolution::Module { id: cur });
    }
    proof {
        assert(segsv.skip(i as int)[0] == segsv[i as int]);
        assert(segsv.skip(i as int).len() == 1);
    }
    match ns {
        Namespace::Value => match tree.find_function(cur, &segs[i]) {
            Some(j) => Ok(Resolution::Function { module: cur, index: j }),
            None => Err(Error::UnresolvedPath { segment: segs[i].clone() }),
        },
        Namespace::Type => match tree.find_type(cur, &segs[i]) {
            Some(j) => Ok(Resolution::Type { module: cur, index: j }),
            None => Err(Error::UnresolvedPath { segment: segs[i].clone() }),
        },
    }
}

/// Resolves `path` against `tree` from the lexical position `start`, with
/// the local scopes `locals` in force, looking the final segment up in
/// namespace `ns`.
///
/// The result is exactly [`spec_resolve`] of the models of the arguments:
/// resolution is a pure, deterministic function of its inputs.
pub fn resolve(
    tree: &ModuleTree,
    start: usize,
    locals: &LocalScope,
    path: &PathExpr,
    ns: Namespace,
) -> (r: Result<Resolution, Error>)
    requires
        tree_wf(tree@),
        start < tree@.len(),
    ensures
        result_model(r) == spec_resolve(tree@, start as int, locals@, path@, ns),
{
    let nseg = path.segments.len();
    let nqual = path.qualifiers.len();
    if nqual == 0 && nseg == 1 {
        match locals.find_local(&path.segments[0]) {
            Some((f, j)) => {
                return Ok(Resolution::Local { frame: f, slot: j });
            },
            None => {},
        }
    }
    if nqual == 0 && nseg >= 1 {
        let first = &path.segments[0];
        let multi = nseg >= 2;
        let mut cur = start;
        loop
            invariant
                tree_wf(tree@),
                cur < tree@.len(),
                multi == (path@.segments.len() >= 2),
                nseg == path@.segments.len(),
                nseg >= 1,
                nqual == 0,
                path@.qualifiers.len() == 0,
                first@ == path@.segments[0],
                spec_find_local(locals@, path@.segments[0]) is None || nseg >= 2,
                spec_outward(tree@, start as int, first@, multi, ns) == spec_outward(
                    tree@,
                    cur as int,
                    first@,
                    multi,
                    ns,
                ),
            decreases cur,
        {
            let exposed = if multi {
                tree.find_child(cur, first).is_some()
            } else {
                match ns {
                    Namespace::Value => tree.find_function(cur, first).is_some(),
                    Namespace::Type => tree.find_type(cur, first).is_some(),
                }
            };
            if exposed {
                assert(spec_outward(tree@, cur as int, first@, multi, ns) == Some(cur as int));
                return walk(tree, cur, &path.segments, ns);
            }
            assert(!spec_exposes(tree@, cur as int, first@, multi, ns));
            match self_parent(tree, cur) {
                Some(p) => {
                    proof {
                        if cur >= 1 {
                            assert(parent_ok(tree@, cur as int));
                        }
                    }
                    cur = p;
                },
                None => {
                    return Err(Error::UnresolvedPath { segment: first.clone() });
                },
            }
        }
    }
    let ghost qualsv = path@.qualifiers;
    let mut cur = start;
    proof {
        assert(qualsv.skip(0) =~= qualsv);
    }
    for qi in 0..nqual
        invariant
            tree_wf(tree@),
            cur < tree@.len(),
            nqual == path.qualifiers.len(),
            qualsv == path@.qualifiers,
            spec_apply_qualifiers(tree@, start as int, qualsv) == spec_apply_qualifiers(
                tree@,
                cur as int,
                qualsv.skip(qi as int),
            ),
    {
        proof {
            assert(qualsv.skip(qi as int)[0] == qualsv[qi as int]);
            assert(qualsv.skip(qi as int).skip(1) =~= qualsv.skip(qi as int + 1));
        }
        match path.qualifiers[qi] {
            Qualifier::SelfQual => {},
            Qualifier::RootQual => {
                cur = 0;
            },
            Qualifier::SuperQual { count } => {
                match super_steps(tree, cur, count) {
                    Ok(a) => {
                        cur = a;
                    },
                    Err(e) => {
                        return Err(e);
                    },
                }
            },
        }
    }
    proof {
        assert(qualsv.skip(nqual as int) =~= Seq::<Qualifier>::empty());
    }
    walk(tree, cur, &path.segments, ns)
}

/// Resolution is deterministic: two resolutions of the same tree, locals,
/// path and namespace are the same result.  [`resolve`] pins its result to
/// [`spec_resolve`], so this holds of the executable resolver as well.
pub proof fn lemma_resolve_deterministic(
    t: Seq<ModuleModel>,
    start: int,
    ls: Seq<Seq<BindingModel>>,
    path: PathModel,
    ns: Namespace,
    r1: Result<ResolutionModel, ErrorModel>,
    r2: Result<ResolutionModel, ErrorModel>,
)
    requires
        r1 == spec_resolve(t, start, ls, path, ns),
        r2 == spec_resolve(t, start, ls, path, ns),
    ensures
        r1 == r2,
{
}

/// The shadowing law: a bare single-segment path whose name is locally
/// bound always resolves to the innermost such binding — never to a
/// module-level declaration, however many enclosing modules also declare
/// that name, and whichever namespace was asked for.
pub proof fn lemma_local_shadowing(
    t: Seq<ModuleModel>,
    start: int,
    ls: Seq<Seq<BindingModel>>,
    path: PathModel,
    ns: Namespace,
)
    requires
        path.qualifiers.len() == 0,
        path.segments.len() == 1,
        spec_find_local(ls, path.segments[0]) is Some,
    ensures
        spec_find_local(ls, path.segments[0]) matches Some((f, j)) && spec_resolve(
            t,
            start,
            ls,
            path,
            ns,
        ) == Ok::<ResolutionModel, ErrorModel>(ResolutionModel::Local { frame: f, slot: j }),
{
}

/// The super-composition law: a leading `self` qualifier never changes what
/// a qualified path resolves to; in particular `self` followed by `k`
/// `super` steps is the same as the `k` `super` steps alone, for any `k`.
pub proof fn lemma_self_qualifier_never_changes(
    t: Seq<ModuleModel>,
    start: int,
    ls: Seq<Seq<BindingModel>>,
    path: PathModel,
    ns: Namespace,
)
    requires
        path.qualifiers.len() >= 1,
    ensures
        spec_resolve(
            t,
            start,
            ls,
            PathModel {
                qualifiers: seq![Qualifier::SelfQual] + path.qualifiers,
                segments: path.segments,
            },
            ns,
        ) == spec_resolve(t, start, ls, path, ns),
{
    let longer = seq![Qualifier::SelfQual] + path.qualifiers;
    assert(longer[0] == Qualifier::SelfQual);
    assert(longer.skip(1) =~= path.qualifiers);
}

/// The root law: an absolute path — one whose first qualifier is the root
/// qualifier — resolves the same from every starting module.
pub proof fn lemma_root_ignores_start(
    t: Seq<ModuleModel>,
    start1: int,
    start2: int,
    ls: Seq<Seq<BindingModel>>,
    path: PathModel,
    ns: Namespace,
)
    requires
        path.qualifiers.len() >= 1,
        path.qualifiers[0] == Qualifier::RootQual,
    ensures
        spec_resolve(t, start1, ls, path, ns) == spec_resolve(t, start2, ls, path, ns),
{
    assert(spec_apply_qualifiers(t, start1, path.qualifiers) == spec_apply_qualifiers(
        t,
        0,
        path.qualifiers.skip(1),
    ));
    assert(spec_apply_qualifiers(t, start2, path.qualifiers) == spec_apply_qualifiers(
        t,
        0,
        path.qualifiers.skip(1),
    ));
}

/// How many `super` steps module `m` is away from the crate root.
pub open spec fn depth_of(t: Seq<ModuleModel>, m: int) -> int
    decreases m,
{
    if !(0 <= m < t.len()) {
        0
    } else {
        match t[m].parent {
            Some(p) => if 0 <= p < m {
                1 + depth_of(t, p)
            } else {
                0
            },
            None => 0,
        }
    }
}

/// A depth is never negative.
proof fn lemma_depth_nonneg(t: Seq<ModuleModel>, m: int)
    ensures
        depth_of(t, m) >= 0,
    decreases m,
{
    if 0 <= m < t.len() {
        match t[m].parent {
            Some(p) => {
                if 0 <= p < m {
                    lemma_depth_nonneg(t, p);
                }
            },
            None => {},
        }
    }
}

/// Applying more `super` steps than a module's depth runs past the crate
/// root and fails.
proof fn lemma_apply_super_past_depth(t: Seq<ModuleModel>, m: int, k: int)
    requires
        tree_wf(t),
        0 <= m < t.len(),
        k > depth_of(t, m),
    ensures
        spec_apply_super(t, m, k) == Err::<int, ErrorModel>(ErrorModel::SuperBeyondRoot),
    decreases k,
{
    if m == 0 {
        assert(t[0].parent is None);
    } else {
        assert(parent_ok(t, m));
        let p = t[m].parent->0;
        assert(depth_of(t, m) == 1 + depth_of(t, p));
        lemma_depth_nonneg(t, p);
        lemma_apply_super_past_depth(t, p, k - 1);
    }
}

/// The over-super law: a path qualified with more `super` steps than the
/// origin's depth below the root fails with `SuperBeyondRoot` — the steps
/// are never silently clamped at the root.
pub proof fn lemma_super_beyond_root(
    t: Seq<ModuleModel>,
    start: int,
    ls: Seq<Seq<BindingModel>>,
    segments: Seq<Seq<char>>,
    count: usize,
    ns: Namespace,
)
    requires
        tree_wf(t),
        0 <= start < t.len(),
        count as int > depth_of(t, start),
    ensures
        spec_resolve(
            t,
            start,
            ls,
            PathModel { qualifiers: seq![Qualifier::SuperQual { count }], segments },
            ns,
        ) == Err::<ResolutionModel, ErrorModel>(ErrorModel::SuperBeyondRoot),
{
    let quals = seq![Qualifier::SuperQual { count }];
    lemma_apply_super_past_depth(t, start, count as int);
    assert(spec_apply_qualifiers(t, start, quals) == Err::<int, ErrorModel>(
        ErrorModel::SuperBeyondRoot,
    ));
}

/// The names along the way from the crate root down to module `m`, one
/// segment per module.
pub open spec fn module_trail(t: Seq<ModuleModel>, m: int) -> Seq<Seq<char>>
    decreases m,
{
    if !(0 < m < t.len()) {
        Seq::empty()
    } else {
        match t[m].parent {
            Some(p) => if 0 <= p < m {
                module_trail(t, p).push(t[m].name)
            } else {
                Seq::empty()
            },
            None => Seq::empty(),
        }
    }
}

/// Walking the path of a module from the root lands in that module.
proof fn lemma_walk_from_root(t: Seq<ModuleModel>, m: int, rest: Seq<Seq<char>>, ns: Namespace)
    requires
        tree_wf(t),
        0 <= m < t.len(),
        rest.len() >= 1,
    ensures
        spec_walk(t, 0, module_trail(t, m) + rest, ns) == spec_walk(t, m, rest, ns),
    decreases m,
{
    if m == 0 {
        assert(module_trail(t, 0) + rest =~= rest);
    } else {
        assert(parent_ok(t, m));
        let p = t[m].parent->0;
        let mid = seq![t[m].name] + rest;
        assert(module_trail(t, m) + rest =~= module_trail(t, p) + mid);
        lemma_walk_from_root(t, p, mid, ns);
        crate::tree::lemma_find_child_unique(t, p, m);
        assert(mid[0] == t[m].name);
        assert(mid.skip(1) =~= rest);
        assert(spec_walk(t, p, mid, ns) == spec_walk(t, m, rest, ns));
    }
}

/// Every declared function is reachable from the crate root: the absolute
/// path through its enclosing modules, ending in its own name, resolves to
/// exactly that declaration, from any start and under any local scopes.
pub proof fn lemma_declared_function_reachable(
    t: Seq<ModuleModel>,
    start: int,
    ls: Seq<Seq<BindingModel>>,
    m: int,
    k: int,
)
    requires
        tree_wf(t),
        0 <= m < t.len(),
        0 <= k < t[m].functions.len(),
    ensures
        spec_resolve(
            t,
            start,
            ls,
            PathModel {
                qualifiers: seq![Qualifier::RootQual],
                segments: module_trail(t, m).push(t[m].functions[k].name),
            },
            Namespace::Value,
        ) == Ok::<ResolutionModel, ErrorModel>(ResolutionModel::Function { module: m, index: k }),
{
    let fname = t[m].functions[k].name;
    let segs = module_trail(t, m).push(fname);
    assert(segs =~= module_trail(t, m) + seq![fname]);
    lemma_walk_from_root(t, m, seq![fname], Namespace::Value);
    assert(crate::tree::module_ok(t, m));
    crate::tree::lemma_find_function_unique(t[m], k);
    let quals = seq![Qualifier::RootQual];
    assert(quals.len() == 1);
    assert(quals[0] == Qualifier::RootQual);
    assert(quals.skip(1) =~= Seq::<Qualifier>::empty());
    assert(spec_apply_qualifiers(t, 0, quals.skip(1)) == Ok::<int, ErrorModel>(0));
    assert(spec_apply_qualifiers(t, start, quals) == Ok::<int, ErrorModel>(0));
}

/// Every declared type is reachable from the crate root, in the same way.
pub proof fn lemma_declared_type_reachable(
    t: Seq<ModuleModel>,
    start: int,
    ls: Seq<Seq<BindingModel>>,
    m: int,
    k: int,
)
    requires
        tree_wf(t),
        0 <= m < t.len(),
        0 <= k < t[m].types.len(),
    ensures
        spec_resolve(
            t,
            start,
            ls,
            PathModel {
                qualifiers: seq![Qualifier::RootQual],
                segments: module_trail(t, m).push(t[m].types[k].name),
            },
            Namespace::Type,
        ) == Ok::<ResolutionModel, ErrorModel>(ResolutionModel::Type { module: m, index: k }),
{
    let tname = t[m].types[k].name;
    let segs = module_trail(t, m).push(tname);
    assert(segs =~= module_trail(t, m) + seq![tname]);
    lemma_walk_from_root(t, m, seq![tname], Namespace::Type);
    assert(crate::tree::module_ok(t, m));
    crate::tree::lemma_find_type_unique(t[m], k);
    let quals = seq![Qualifier::RootQual];
    assert(quals.len() == 1);
    assert(quals[0] == Qualifier::RootQual);
    assert(quals.skip(1) =~= Seq::<Qualifier>::empty());
    assert(spec_apply_qualifiers(t, 0, quals.skip(1)) == Ok::<int, ErrorModel>(0));
    assert(spec_apply_qualifiers(t, start, quals) == Ok::<int, ErrorModel>(0));
}

/// A found function index lies inside its table.
proof fn lemma_first_function_from_range(fns: Seq<crate::tree::FunctionModel>, n: Seq<char>, j: int)
    requires
        first_function_from(fns, n, j) is Some,
    ensures
        first_function_from(fns, n, j) matches Some(x) && 0 <= x < fns.len(),
    decreases fns.len() - j,
{
    if !(j < 0 || j >= fns.len()) && fns[j].name != n {
        lemma_first_function_from_range(fns, n, j + 1);
    }
}

/// A found type index lies inside its table.
proof fn lemma_first_type_from_range(tys: Seq<crate::tree::TypeModel>, n: Seq<char>, j: int)
    requires
        first_type_from(tys, n, j) is Some,
    ensures
        first_type_from(tys, n, j) matches Some(x) && 0 <= x < tys.len(),
    decreases tys.len() - j,
{
    if !(j < 0 || j >= tys.len()) && tys[j].name != n {
        lemma_first_type_from_range(tys, n, j + 1);
    }
}

/// A found child index names a real node.
proof fn lemma_first_child_from_range(t: Seq<ModuleModel>, m: int, n: Seq<char>, j: int)
    requires
        first_child_from(t, m, n, j) is Some,
    ensures
        first_child_from(t, m, n, j) matches Some(c) && 0 <= c < t.len(),
    decreases t[m].children.len() - j,
{
    if 0 <= m < t.len() && !(j < 0 || j >= t[m].children.len()) {
        if !(0 <= t[m].children[j] < t.len() && t[t[m].children[j]].name == n) {
            lemma_first_child_from_range(t, m, n, j + 1);
        }
    }
}

/// `super` steps stay inside the tree.
proof fn lemma_apply_super_valid(t: Seq<ModuleModel>, m: int, k: int)
    requires
        tree_wf(t),
        0 <= m < t.len(),
    ensures
        spec_apply_super(t, m, k) matches Ok(a) ==> 0 <= a < t.len(),
    decreases k,
{
    if k > 0 {
        if m >= 1 {
            assert(parent_ok(t, m));
            match t[m].parent {
                Some(p) => {
                    lemma_apply_super_valid(t, p, k - 1);
                },
                None => {},
            }
        }
    }
}

/// Qualifier application stays inside the tree.
proof fn lemma_apply_qualifiers_valid(t: Seq<ModuleModel>, m: int, quals: Seq<Qualifier>)
    requires
        tree_wf(t),
        0 <= m < t.len(),
    ensures
        spec_apply_qualifiers(t, m, quals) matches Ok(a) ==> 0 <= a < t.len(),
    decreases quals.len(),
{
    if quals.len() > 0 {
        match quals[0] {
            Qualifier::SelfQual => {
                lemma_apply_qualifiers_valid(t, m, quals.skip(1));
            },
            Qualifier::RootQual => {
                lemma_apply_qualifiers_valid(t, 0, quals.skip(1));
            },
            Qualifier::SuperQual { count } => {
                lemma_apply_super_valid(t, m, count as int);
                match spec_apply_super(t, m, count as int) {
                    Ok(a) => {
                        lemma_apply_qualifiers_valid(t, a, quals.skip(1));
                    },
                    Err(e) => {},
                }
            },
        }
    }
}

/// The outward search stays inside the tree.
proof fn lemma_outward_valid(t: Seq<ModuleModel>, m: int, name: Seq<char>, multi: bool, ns: Namespace)
    ensures
        spec_outward(t, m, name, multi, ns) matches Some(a) ==> 0 <= a < t.len(),
    decreases m,
{
    if 0 <= m < t.len() && !spec_exposes(t, m, name, multi, ns) {
        match t[m].parent {
            Some(p) => {
                if 0 <= p < m {
                    lemma_outward_valid(t, p, name, multi, ns);
                }
            },
            None => {},
        }
    }
}

/// A successful walk hands back in-range handles, never a local binding.
proof fn lemma_walk_valid(t: Seq<ModuleModel>, m: int, segs: Seq<Seq<char>>, ns: Namespace)
    requires
        0 <= m < t.len(),
    ensures
        match spec_walk(t, m, segs, ns) {
            Ok(res) => match res {
                ResolutionModel::Local { .. } => false,
                ResolutionModel::Module { id } => 0 <= id < t.len(),
                ResolutionModel::Function { module, index } => 0 <= module < t.len() && 0 <= index
                    < t[module].functions.len(),
                ResolutionModel::Type { module, index } => 0 <= module < t.len() && 0 <= index
                    < t[module].types.len(),
            },
            Err(e) => true,
        },
    decreases segs.len(),
{
    if segs.len() == 1 {
        match ns {
            Namespace::Value => {
                if spec_find_function(t[m], segs[0]) is Some {
                    lemma_first_function_from_range(t[m].functions, segs[0], 0);
                }
            },
            Namespace::Type => {
                if spec_find_type(t[m], segs[0]) is Some {
                    lemma_first_type_from_range(t[m].types, segs[0], 0);
                }
            },
        }
    } else if segs.len() >= 2 {
        match spec_find_child(t, m, segs[0]) {
            Some(c) => {
                lemma_first_child_from_range(t, m, segs[0], 0);
                lemma_walk_valid(t, c, segs.skip(1), ns);
            },
            None => {},
        }
    }
}

/// Whatever a resolution hands back is in range: a local binding lies
/// inside the scopes, and a declaration handle indexes a real entry of a
/// real module.
pub proof fn lemma_resolve_target_valid(
    t: Seq<ModuleModel>,
    start: int,
    ls: Seq<Seq<BindingModel>>,
    path: PathModel,
    ns: Namespace,
)
    requires
        tree_wf(t),
        0 <= start < t.len(),
    ensures
        match spec_resolve(t, start, ls, path, ns) {
            Ok(res) => match res {
                ResolutionModel::Local { frame, slot } => 0 <= frame < ls.len() && 0 <= slot
                    < ls[frame].len(),
                ResolutionModel::Module { id } => 0 <= id < t.len(),
                ResolutionModel::Function { module, index } => 0 <= module < t.len() && 0 <= index
                    < t[module].functions.len(),
                ResolutionModel::Type { module, index } => 0 <= module < t.len() && 0 <= index
                    < t[module].types.len(),
            },
            Err(e) => true,
        },
{
    if path.qualifiers.len() == 0 && path.segments.len() == 1 && spec_find_local(
        ls,
        path.segments[0],
    ) is Some {
        crate::scope::lemma_find_local_in_bounds(ls, path.segments[0]);
    } else if path.qualifiers.len() == 0 && path.segments.len() >= 1 {
        let multi = path.segments.len() >= 2;
        lemma_outward_valid(t, start, path.segments[0], multi, ns);
        match spec_outward(t, start, path.segments[0], multi, ns) {
            Some(a) => {
                lemma_walk_valid(t, a, path.segments, ns);
            },
            None => {},
        }
    } else {
        lemma_apply_qualifiers_valid(t, start, path.qualifiers);
        match spec_apply_qualifiers(t, start, path.qualifiers) {
            Ok(origin) => {
                lemma_walk_valid(t, origin, path.segments, ns);
            },
            Err(e) => {},
        }
    }
}

} // verus!
