use vstd::prelude::*;

use crate::types::{Error, FunctionIdentifier};

verus! {

/// The functions being executed, innermost last, and the set of those
/// watched for recursion detection.
pub struct CallStack {
    stack: Vec<FunctionIdentifier>,
    set: Vec<FunctionIdentifier>,
}

pub type StackTrace = Vec<FunctionIdentifier>;

impl CallStack {
    /// The identifiers on the stack, outermost first.
    pub closed spec fn frames(&self) -> Seq<Seq<char>> {
        self.stack@.map_values(|f: FunctionIdentifier| f.identifier@)
    }

    /// The identifiers watched for recursion detection.
    pub closed spec fn watched(&self) -> Set<Seq<char>> {
        Set::new(|x: Seq<char>| exists|i: int| 0 <= i < self.set@.len() && #[trigger] self.set@[i].identifier@ == x)
    }

    /// Each watched identifier is held once.
    pub closed spec fn well_formed(&self) -> bool {
        forall|i: int, j: int|
            0 <= i < self.set@.len() && 0 <= j < self.set@.len() && i != j
                ==> (#[trigger] self.set@[i]).identifier@ != (#[trigger] self.set@[j]).identifier@
    }

    pub fn new() -> (r: CallStack)
        ensures
            r.well_formed(),
            r.frames() == Seq::<Seq<char>>::empty(),
            r.watched() == Set::<Seq<char>>::empty(),
    {
        let r = CallStack { stack: Vec::new(), set: Vec::new() };
        proof {
            assert(r.frames() =~= Seq::<Seq<char>>::empty());
            assert(r.watched() =~= Set::<Seq<char>>::empty());
        }
        r
    }

    pub fn depth(&self) -> (r: usize)
        ensures
            r == self.frames().len(),
    {
        self.stack.len()
    }

    fn find_watched(&self, function: &FunctionIdentifier) -> (r: Option<usize>)
        ensures
            match r {
                Some(i) => i < self.set@.len() && self.set@[i as int].identifier@
                    == function.identifier@ && self.watched().contains(function.identifier@),
                None => !self.watched().contains(function.identifier@) && forall|j: int|
                    0 <= j < self.set@.len() ==> (#[trigger] self.set@[j]).identifier@ != function.identifier@,
            },
    {
        let mut i: usize = 0;
        while i < self.set.len()
            invariant
                i <= self.set@.len(),
                forall|j: int| 0 <= j < i ==> (#[trigger] self.set@[j]).identifier@ != function.identifier@,
            decreases self.set@.len() - i,
        {
            if self.set[i].same_as(function) {
                return Some(i);
            }
            i = i + 1;
        }
        None
    }

    /// Whether `function` is watched, that is, a watched call of it is under way.
    pub fn contains(&self, function: &FunctionIdentifier) -> (r: bool)
        ensures
            r == self.watched().contains(function.identifier@),
    {
        self.find_watched(function).is_some()
    }

    /// Pushes `function`; with `track`, it also counts for recursion detection.
    pub fn insert(&mut self, function: &FunctionIdentifier, track: bool)
        requires
            old(self).well_formed(),
        ensures
            final(self).well_formed(),
            final(self).frames() == old(self).frames().push(function.identifier@),
            final(self).watched() == if track {
                old(self).watched().insert(function.identifier@)
            } else {
                old(self).watched()
            },
    {
        let ghost before = *self;
        self.stack.push(function.duplicate());
        if track {
            match self.find_watched(function) {
                Some(i) => {
                    proof {
                        assert(self.watched().insert(function.identifier@) =~= self.watched());
                    }
                },
                None => {
                    self.set.push(function.duplicate());
                    proof {
                        assert forall|x: Seq<char>| self.watched().contains(x)
                            == before.watched().insert(function.identifier@).contains(x) by {
                            if before.watched().contains(x) {
                                let k = choose|k: int| 0 <= k < before.set@.len() && #[trigger] before.set@[k].identifier@ == x;
                                assert(self.set@[k] == before.set@[k]);
                            }
                            if x == function.identifier@ {
                                assert(self.set@[before.set@.len() as int].identifier@ == x);
                            }
                            if self.watched().contains(x) {
                                let k = choose|k: int| 0 <= k < self.set@.len() && #[trigger] self.set@[k].identifier@ == x;
                                if k < before.set@.len() {
                                    assert(self.set@[k] == before.set@[k]);
                                }
                            }
                        }
                        assert(self.watched() =~= before.watched().insert(function.identifier@));
                        assert forall|i: int, j: int|
                            0 <= i < self.set@.len() && 0 <= j < self.set@.len() && i != j
                                implies (#[trigger] self.set@[i]).identifier@ != (#[trigger] self.set@[j]).identifier@ by {
                            if i < before.set@.len() {
                                assert(self.set@[i] == before.set@[i]);
                            }
                            if j < before.set@.len() {
                                assert(self.set@[j] == before.set@[j]);
                            }
                        }
                    }
                },
            }
        }
        proof {
            assert(self.stack@.map_values(|f: FunctionIdentifier| f.identifier@)
                =~= before.stack@.map_values(|f: FunctionIdentifier| f.identifier@).push(function.identifier@));
        }
    }

    /// Pops `function`, which must be the innermost call. An empty stack, or
    /// another function on top, is an error; the top is popped in the latter
    /// case all the same.
    pub fn remove(&mut self, function: &FunctionIdentifier, watched: bool) -> (r: Result<(), Error>)
        requires
            old(self).well_formed(),
            old(self).frames().len() > 0 && old(self).frames().last() == function.identifier@
                && watched ==> old(self).watched().contains(function.identifier@),
        ensures
            final(self).well_formed(),
            old(self).frames().len() == 0 ==> final(self).frames() == old(self).frames(),
            old(self).frames().len() > 0 ==> final(self).frames() == old(self).frames().drop_last(),
            r is Ok <==> old(self).frames().len() > 0 && old(self).frames().last() == function.identifier@,
            r is Err ==> (r matches Err(Error::InterpreterError(_))) && final(self).watched() == old(self).watched(),
            r is Ok ==> final(self).watched() == if watched {
                old(self).watched().remove(function.identifier@)
            } else {
                old(self).watched()
            },
    {
        let ghost before = *self;
        match self.stack.pop() {
            Some(removed) => {
                proof {
                    assert(self.stack@.map_values(|f: FunctionIdentifier| f.identifier@)
                        =~= before.stack@.map_values(|f: FunctionIdentifier| f.identifier@).drop_last());
                }
                if !removed.same_as(function) {
                    proof {
                        assert(self.watched() =~= before.watched());
                    }
                    return Err(Error::InterpreterError("Tried to remove item from empty call stack.".to_string()));
                }
                if watched {
                    match self.find_watched(function) {
                        Some(i) => {
                            let ghost s = self.set@;
                            self.set.swap_remove(i);
                            proof {
                                let n = s.len() - 1;
                                assert forall|k: int| 0 <= k < self.set@.len() implies #[trigger] self.set@[k]
                                    == if k == i { s[n] } else { s[k] } by {}
                                assert forall|x: Seq<char>| self.watched().contains(x)
                                    == before.watched().remove(function.identifier@).contains(x) by {
                                    if self.watched().contains(x) {
                                        let k = choose|k: int| 0 <= k < self.set@.len() && #[trigger] self.set@[k].identifier@ == x;
                                        if k == i {
                                            assert(s[n].identifier@ == x);
                                        } else {
                                            assert(s[k].identifier@ == x);
                                        }
                                    }
                                    if before.watched().remove(function.identifier@).contains(x) {
                                        let k = choose|k: int| 0 <= k < s.len() && #[trigger] s[k].identifier@ == x;
                                        assert(k != i);
                                        if k < n {
                                            assert(self.set@[k].identifier@ == x);
                                        } else {
                                            assert(self.set@[i as int].identifier@ == x);
                                        }
                                    }
                                }
                                assert(self.watched() =~= before.watched().remove(function.identifier@));
                                assert forall|a: int, b: int|
                                    0 <= a < self.set@.len() && 0 <= b < self.set@.len() && a != b
                                        implies (#[trigger] self.set@[a]).identifier@ != (#[trigger] self.set@[b]).identifier@ by {
                                    let a0 = if a == i { n } else { a };
                                    let b0 = if b == i { n } else { b };
                                    assert(self.set@[a] == s[a0] && self.set@[b] == s[b0]);
                                }
                            }
                        },
                        None => {
                            proof {
                                assert(false);
                            }
                        },
                    }
                } else {
                    proof {
                        assert(self.watched() =~= before.watched());
                    }
                }
                Ok(())
            },
            None => Err(Error::InterpreterError("Tried to remove item from empty call stack.".to_string())),
        }
    }

    /// Diagnostics are not collected in this build: the trace is empty.
    pub fn make_stack_trace(&self) -> (r: StackTrace)
        ensures
            r@.len() == 0,
    {
        Vec::new()
    }
}

} // verus!
