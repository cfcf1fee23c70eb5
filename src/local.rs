use vstd::prelude::*;

use crate::bindings::{binding, find_binding};
use crate::types::{Error, Value};
use crate::MAX_CONTEXT_DEPTH;

verus! {

/// A lexical frame of the evaluator: its own bindings, and the frame it
/// was opened in.
pub struct LocalContext<'a> {
    parent: Option<&'a LocalContext<'a>>,
    pub variables: Vec<(String, Value)>,
    depth: u16,
}

impl<'a> LocalContext<'a> {
    pub closed spec fn depth_spec(&self) -> int {
        self.depth as int
    }

    pub closed spec fn parent_spec(&self) -> Option<&'a LocalContext<'a>> {
        self.parent
    }

    /// The root has depth zero; each frame is one deeper than its parent;
    /// no frame is deeper than the limit.
    pub closed spec fn well_formed(&self) -> bool
        decreases self.depth_spec(),
    {
        &&& self.depth <= MAX_CONTEXT_DEPTH
        &&& match self.parent {
            None => self.depth == 0,
            Some(p) => self.depth > 0 && p.depth == self.depth - 1 && p.well_formed(),
        }
    }

    /// What `n` stands for here: its binding in the nearest frame, from this
    /// one outwards, that binds it.
    pub closed spec fn visible(&self, n: Seq<char>) -> Option<Value>
        decreases self.depth_spec(),
    {
        match binding(self.variables@, n) {
            Some(v) => Some(v),
            None => match self.parent {
                Some(p) => if p.depth < self.depth {
                    p.visible(n)
                } else {
                    None
                },
                None => None,
            },
        }
    }

    /// The binding `n` has in this frame alone.
    pub closed spec fn own_binding(&self, n: Seq<char>) -> Option<Value> {
        binding(self.variables@, n)
    }

    pub fn new() -> (r: LocalContext<'a>)
        ensures
            r.well_formed(),
            r.depth_spec() == 0,
            r.parent_spec() is None,
            forall|n: Seq<char>| #[trigger] r.own_binding(n) is None,
    {
        LocalContext { depth: 0, parent: None, variables: Vec::new() }
    }

    /// Opens a frame inside this one, unless this one is at the depth limit.
    pub fn extend(&'a self) -> (r: Result<LocalContext<'a>, Error>)
        requires
            self.well_formed(),
        ensures
            r is Err <==> self.depth_spec() == MAX_CONTEXT_DEPTH,
            r is Err ==> r == Err::<LocalContext<'a>, Error>(Error::MaxContextDepthReached),
            r matches Ok(c) ==> c.well_formed() && c.depth_spec() == self.depth_spec() + 1
                && c.parent_spec() == Some(self) && forall|n: Seq<char>| #[trigger] c.own_binding(n) is None,
    {
        if self.depth >= MAX_CONTEXT_DEPTH {
            Err(Error::MaxContextDepthReached)
        } else {
            Ok(LocalContext { parent: Some(self), variables: Vec::new(), depth: self.depth + 1 })
        }
    }

    /// The value `name` stands for, looked up from this frame outwards.
    pub fn lookup_variable(&self, name: &str) -> (r: Option<Value>)
        requires
            self.well_formed(),
        ensures
            r == self.visible(name@),
        decreases self.depth_spec(),
    {
        match find_binding(&self.variables, name) {
            Some(i) => Some(self.variables[i].1.duplicate()),
            None => match self.parent {
                Some(parent) => parent.lookup_variable(name),
                None => None,
            },
        }
    }
}

/// A binding of `n` in a frame is what a lookup of `n` from that frame finds;
/// a frame that does not bind `n` shows what its parent shows.
pub proof fn lemma_nearest_binding(c: &LocalContext, n: Seq<char>)
    requires
        c.well_formed(),
    ensures
        c.own_binding(n) is Some ==> c.visible(n) == c.own_binding(n),
        c.own_binding(n) is None ==> match c.parent_spec() {
            Some(p) => c.visible(n) == p.visible(n),
            None => c.visible(n) is None,
        },
        c.parent_spec() matches Some(p) ==> p.well_formed() && p.depth_spec() == c.depth_spec() - 1,
{
}

} // verus!
