//! The stack of local scopes that exists while one expression is evaluated.
//!
//! A [`LocalScope`] is a stack of frames; a frame is pushed on entry to a
//! block and popped on exit, and holds the bindings made in that block in
//! the order they were made.  Lookup is innermost-first: the last frame is
//! searched first, and within a frame the last binding wins, so a later
//! binding shadows an earlier one of the same name.  Local scopes are never
//! persisted and never shared; resolution stays a pure function of
//! (tree, locals, path).

use vstd::prelude::*;

use crate::value::Value;
use crate::value::ValueModel;

verus! {

/// One local binding: a name and the value currently bound to it.
#[derive(Debug, PartialEq, Eq)]
pub struct Binding {
    pub name: String,
    pub value: Value,
}

/// The mathematical model of a [`Binding`].
pub struct BindingModel {
    pub name: Seq<char>,
    pub value: ValueModel,
}

impl View for Binding {
    type V = BindingModel;

    open spec fn view(&self) -> BindingModel {
        BindingModel { name: self.name@, value: self.value@ }
    }
}

/// One scope frame: the bindings made in one block, oldest first.
#[derive(Debug, PartialEq, Eq)]
pub struct Frame {
    pub bindings: Vec<Binding>,
}

impl View for Frame {
    type V = Seq<BindingModel>;

    open spec fn view(&self) -> Seq<BindingModel> {
        self.bindings@.map_values(|b: Binding| b@)
    }
}

/// The stack of frames, outermost first.
#[derive(Debug, PartialEq, Eq)]
pub struct LocalScope {
    pub frames: Vec<Frame>,
}

impl View for LocalScope {
    type V = Seq<Seq<BindingModel>>;

    open spec fn view(&self) -> Seq<Seq<BindingModel>> {
        self.frames@.map_values(|f: Frame| f@)
    }
}

/// The last binding named `name` at or before position `j` of one frame.
pub open spec fn find_binding_from(fr: Seq<BindingModel>, name: Seq<char>, j: int) -> Option<int>
    decreases j + 1,
{
    if j < 0 || j >= fr.len() {
        None
    } else if fr[j].name == name {
        Some(j)
    } else {
        find_binding_from(fr, name, j - 1)
    }
}

/// The innermost binding named `name` in the frames at or below position
/// `f`, as a `(frame, slot)` pair.
pub open spec fn find_local_from(ls: Seq<Seq<BindingModel>>, name: Seq<char>, f: int) -> Option<
    (int, int),
>
    decreases f + 1,
{
    if f < 0 || f >= ls.len() {
        None
    } else {
        match find_binding_from(ls[f], name, ls[f].len() - 1) {
            Some(j) => Some((f, j)),
            None => find_local_from(ls, name, f - 1),
        }
    }
}

/// The innermost binding named `name`, searching the whole stack.
pub open spec fn spec_find_local(ls: Seq<Seq<BindingModel>>, name: Seq<char>) -> Option<
    (int, int),
> {
    find_local_from(ls, name, ls.len() - 1)
}

impl LocalScope {
    /// An empty stack: no frames at all.
    pub fn new() -> (r: LocalScope)
        ensures
            r@ == Seq::<Seq<BindingModel>>::empty(),
    {
        let r = LocalScope { frames: Vec::new() };
        proof {
            assert(r@ =~= Seq::<Seq<BindingModel>>::empty());
        }
        r
    }

    /// Enters a block: pushes an empty frame.
    pub fn push_frame(&mut self)
        ensures
            final(self)@ == old(self)@.push(Seq::<BindingModel>::empty()),
    {
        self.frames.push(Frame { bindings: Vec::new() });
        proof {
            assert(final(self)@ =~~= old(self)@.push(Seq::<BindingModel>::empty()));
        }
    }

    /// Leaves a block: pops the innermost frame, destroying its bindings.
    pub fn pop_frame(&mut self)
        requires
            old(self)@.len() > 0,
        ensures
            final(self)@ == old(self)@.drop_last(),
    {
        let _ = self.frames.pop();
        proof {
            assert(final(self)@ =~~= old(self)@.drop_last());
        }
    }

    /// Binds `name` to `value` in the innermost frame.
    pub fn bind(&mut self, name: String, value: Value)
        requires
            old(self)@.len() > 0,
        ensures
            final(self)@ == old(self)@.update(
                old(self)@.len() - 1,
                old(self)@.last().push(BindingModel { name: name@, value: value@ }),
            ),
    {
        let ghost target = old(self)@.update(
            old(self)@.len() - 1,
            old(self)@.last().push(BindingModel { name: name@, value: value@ }),
        );
        let last = self.frames.len() - 1;
        let fr = &mut self.frames[last];
        fr.bindings.push(Binding { name, value });
        proof {
            assert(final(self)@ =~~= target);
        }
    }

    /// Replaces the value of the binding at `(frame, slot)`, keeping its
    /// name.
    pub fn set_value(&mut self, frame: usize, slot: usize, value: Value)
        requires
            frame < old(self)@.len(),
            slot < old(self)@[frame as int].len(),
        ensures
            final(self)@ == old(self)@.update(
                frame as int,
                old(self)@[frame as int].update(
                    slot as int,
                    BindingModel { name: old(self)@[frame as int][slot as int].name, value: value@ },
                ),
            ),
    {
        let ghost target = old(self)@.update(
            frame as int,
            old(self)@[frame as int].update(
                slot as int,
                BindingModel { name: old(self)@[frame as int][slot as int].name, value: value@ },
            ),
        );
        let fr = &mut self.frames[frame];
        let b = &mut fr.bindings[slot];
        b.value = value;
        proof {
            assert(final(self)@ =~~= target);
        }
    }

    /// Reads the value bound at `(frame, slot)`.
    pub fn value_at(&self, frame: usize, slot: usize) -> (r: &Value)
        requires
            frame < self@.len(),
            slot < self@[frame as int].len(),
        ensures
            r@ == self@[frame as int][slot as int].value,
    {
        &self.frames[frame].bindings[slot].value
    }

    /// How many bindings frame `f` holds.
    pub fn frame_len(&self, f: usize) -> (r: usize)
        requires
            f < self@.len(),
        ensures
            r == self@[f as int].len(),
    {
        self.frames[f].bindings.len()
    }

    /// How many frames are on the stack.
    pub fn depth(&self) -> (r: usize)
        ensures
            r == self@.len(),
    {
        self.frames.len()
    }

    /// Finds the innermost binding named `name`, if any.
    pub fn find_local(&self, name: &String) -> (r: Option<(usize, usize)>)
        ensures
            match r {
                Some((f, j)) => {
                    &&& spec_find_local(self@, name@) == Some((f as int, j as int))
                    &&& f < self@.len()
                    &&& j < self@[f as int].len()
                },
                None => spec_find_local(self@, name@) is None,
            },
    {
        let mut fi = self.frames.len();
        while fi > 0
            invariant
                fi <= self@.len(),
                self@.len() == self.frames.len(),
                spec_find_local(self@, name@) == find_local_from(self@, name@, fi as int - 1),
            decreases fi,
        {
            fi = fi - 1;
            let fr = &self.frames[fi];
            let mut bi = fr.bindings.len();
            assert(self@[fi as int] == fr@);
            while bi > 0
                invariant
                    bi <= fr@.len(),
                    fr@.len() == fr.bindings.len(),
                    fi < self@.len(),
                    self@[fi as int] == fr@,
                    spec_find_local(self@, name@) == find_local_from(self@, name@, fi as int),
                    find_binding_from(fr@, name@, fr@.len() - 1) == find_binding_from(
                        fr@,
                        name@,
                        bi as int - 1,
                    ),
                decreases bi,
            {
                bi = bi - 1;
                if fr.bindings[bi].name == *name {
                    assert(fr@[bi as int].name == name@);
                    assert(find_binding_from(fr@, name@, bi as int) == Some(bi as int));
                    assert(find_local_from(self@, name@, fi as int) == Some(
                        (fi as int, bi as int),
                    ));
                    return Some((fi, bi));
                }
                assert(fr@[bi as int].name != name@);
            }
            assert(find_binding_from(self@[fi as int], name@, self@[fi as int].len() - 1) is None);
        }
        None
    }
}

/// A found binding lies inside the frame and carries the looked-up name.
proof fn lemma_find_binding_in_bounds(fr: Seq<BindingModel>, name: Seq<char>, j: int)
    requires
        find_binding_from(fr, name, j) is Some,
    ensures
        find_binding_from(fr, name, j) matches Some(x) && 0 <= x < fr.len() && fr[x].name == name,
    decreases j + 1,
{
    if !(j < 0 || j >= fr.len()) && fr[j].name != name {
        lemma_find_binding_in_bounds(fr, name, j - 1);
    }
}

/// A found local lies inside the stack and carries the looked-up name.
proof fn lemma_find_local_from_in_bounds(ls: Seq<Seq<BindingModel>>, name: Seq<char>, f: int)
    requires
        find_local_from(ls, name, f) is Some,
    ensures
        find_local_from(ls, name, f) matches Some((x, y)) && 0 <= x < ls.len() && 0 <= y
            < ls[x].len() && ls[x][y].name == name,
    decreases f + 1,
{
    if !(f < 0 || f >= ls.len()) {
        if find_binding_from(ls[f], name, ls[f].len() - 1) is Some {
            lemma_find_binding_in_bounds(ls[f], name, ls[f].len() - 1);
        } else {
            lemma_find_local_from_in_bounds(ls, name, f - 1);
        }
    }
}

/// A found local lies inside the stack and carries the looked-up name.
pub proof fn lemma_find_local_in_bounds(ls: Seq<Seq<BindingModel>>, name: Seq<char>)
    requires
        spec_find_local(ls, name) is Some,
    ensures
        spec_find_local(ls, name) matches Some((x, y)) && 0 <= x < ls.len() && 0 <= y < ls[x].len()
            && ls[x][y].name == name,
{
    lemma_find_local_from_in_bounds(ls, name, ls.len() - 1);
}

/// Binding lookup depends only on the names: two frames with the same
/// names in the same slots are searched alike.
proof fn lemma_find_binding_same_names(
    fr1: Seq<BindingModel>,
    fr2: Seq<BindingModel>,
    name: Seq<char>,
    j: int,
)
    requires
        fr1.len() == fr2.len(),
        forall|x: int| 0 <= x < fr1.len() ==> (#[trigger] fr1[x]).name == fr2[x].name,
    ensures
        find_binding_from(fr1, name, j) == find_binding_from(fr2, name, j),
    decreases j + 1,
{
    if !(j < 0 || j >= fr1.len()) && fr1[j].name != name {
        lemma_find_binding_same_names(fr1, fr2, name, j - 1);
    }
}

/// Local lookup depends only on the names: updating a binding's value
/// never changes where any name resolves.
proof fn lemma_find_local_from_same_names(
    ls1: Seq<Seq<BindingModel>>,
    ls2: Seq<Seq<BindingModel>>,
    name: Seq<char>,
    f: int,
)
    requires
        ls1.len() == ls2.len(),
        forall|x: int| 0 <= x < ls1.len() ==> (#[trigger] ls1[x]).len() == ls2[x].len(),
        forall|x: int, y: int|
            0 <= x < ls1.len() && 0 <= y < ls1[x].len() ==> (#[trigger] ls1[x][y]).name
                == ls2[x][y].name,
    ensures
        find_local_from(ls1, name, f) == find_local_from(ls2, name, f),
    decreases f + 1,
{
    if !(f < 0 || f >= ls1.len()) {
        assert forall|y: int| 0 <= y < ls1[f].len() implies (#[trigger] ls1[f][y]).name
            == ls2[f][y].name by {}
        lemma_find_binding_same_names(ls1[f], ls2[f], name, ls1[f].len() - 1);
        if find_binding_from(ls1[f], name, ls1[f].len() - 1) is None {
            lemma_find_local_from_same_names(ls1, ls2, name, f - 1);
        }
    }
}

/// Local lookup depends only on the names.
pub proof fn lemma_find_local_same_names(
    ls1: Seq<Seq<BindingModel>>,
    ls2: Seq<Seq<BindingModel>>,
    name: Seq<char>,
)
    requires
        ls1.len() == ls2.len(),
        forall|x: int| 0 <= x < ls1.len() ==> (#[trigger] ls1[x]).len() == ls2[x].len(),
        forall|x: int, y: int|
            0 <= x < ls1.len() && 0 <= y < ls1[x].len() ==> (#[trigger] ls1[x][y]).name
                == ls2[x][y].name,
    ensures
        spec_find_local(ls1, name) == spec_find_local(ls2, name),
{
    lemma_find_local_from_same_names(ls1, ls2, name, ls1.len() - 1);
}

} // verus!
