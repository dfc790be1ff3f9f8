//! The supervisor's handle registry: which processes currently have a live
//! kill handle. The registry only books handles; delivering signals to real
//! children is the caller's side of the bargain, keyed by the same process
//! identifiers.

use vstd::prelude::*;

verus! {

use crate::Id;

/// The set of process identifiers with a live kill handle.
pub struct Supervisor {
    pub live: Vec<Id>,
}

impl Supervisor {
    /// A handle for process `id` is registered.
    pub open spec fn is_live(self, id: Id) -> bool {
        self.live@.contains(id)
    }

    /// No identifier is registered twice.
    pub open spec fn wf(self) -> bool {
        forall|i: int, j: int| 0 <= i < j < self.live@.len() ==> self.live@[i] != self.live@[j]
    }

    /// An empty registry.
    pub fn new() -> (s: Supervisor)
        ensures
            s.wf(),
            forall|id: Id| !s.is_live(id),
    {
        let s = Supervisor { live: Vec::new() };
        proof {
            assert(forall|id: Id| !s.live@.contains(id));
        }
        s
    }

    /// Is a handle registered for `id`?
    pub fn contains(&self, id: Id) -> (r: bool)
        ensures
            r == self.is_live(id),
    {
        let n: usize = self.live.len();
        let mut i: usize = 0;
        while i < n
            invariant
                n == self.live.len(),
                0 <= i <= n,
                forall|j: int| 0 <= j < i ==> self.live@[j] != id,
            decreases n - i,
        {
            if self.live[i] == id {
                return true;
            }
            i = i + 1;
        }
        false
    }

    /// Register a handle for a process that has none.
    pub fn register(&mut self, id: Id)
        requires
            old(self).wf(),
            !old(self).is_live(id),
        ensures
            final(self).wf(),
            final(self).is_live(id),
            forall|x: Id| x != id ==> final(self).is_live(x) == old(self).is_live(x),
    {
        self.live.push(id);
        proof {
            assert(self.live@.last() == id);
            assert forall|x: Id| x != id implies self.is_live(x) == old(self).is_live(x) by {
                if old(self).live@.contains(x) {
                    let w = choose|w: int|
                        0 <= w < old(self).live@.len() && old(self).live@[w] == x;
                    assert(self.live@[w] == x);
                } else {
                    if self.live@.contains(x) {
                        let w = choose|w: int| 0 <= w < self.live@.len() && self.live@[w] == x;
                        assert(w < old(self).live@.len());
                    }
                }
            }
        }
    }

    /// Take the handle for `id`, reporting whether one was registered. After
    /// the call no handle for `id` remains; every other handle is untouched.
    pub fn take(&mut self, id: Id) -> (was: bool)
        requires
            old(self).wf(),
        ensures
            final(self).wf(),
            was == old(self).is_live(id),
            !final(self).is_live(id),
            forall|x: Id| x != id ==> final(self).is_live(x) == old(self).is_live(x),
    {
        let n: usize = self.live.len();
        let mut i: usize = 0;
        while i < n
            invariant
                *self == *old(self),
                old(self).wf(),
                n == self.live.len(),
                0 <= i <= n,
                forall|j: int| 0 <= j < i ==> self.live@[j] != id,
            decreases n - i,
        {
            if self.live[i] == id {
                let ghost l0 = self.live@;
                self.live.remove(i);
                proof {
                    assert(self.live@ =~= l0.remove(i as int));
                    assert forall|k: int, m: int|
                        0 <= k < m < self.live@.len() implies self.live@[k] != self.live@[m] by {
                        if m < i {
                        } else if k < i {
                            assert(self.live@[m] == l0[m + 1]);
                        } else {
                            assert(self.live@[k] == l0[k + 1]);
                            assert(self.live@[m] == l0[m + 1]);
                        }
                    }
                    assert(!self.live@.contains(id)) by {
                        if self.live@.contains(id) {
                            let w = choose|w: int|
                                0 <= w < self.live@.len() && self.live@[w] == id;
                            if w < i {
                            } else {
                                assert(self.live@[w] == l0[w + 1]);
                            }
                        }
                    }
                    assert(l0.contains(id));
                    assert forall|x: Id| x != id implies self.is_live(x) == old(self).is_live(
                        x,
                    ) by {
                        if l0.contains(x) {
                            let w = choose|w: int| 0 <= w < l0.len() && l0[w] == x;
                            if w < i {
                                assert(self.live@[w] == x);
                            } else if w > i {
                                assert(self.live@[w - 1] == x);
                            }
                        } else {
                            if self.live@.contains(x) {
                                let w = choose|w: int|
                                    0 <= w < self.live@.len() && self.live@[w] == x;
                                if w < i {
                                    assert(l0[w] == x);
                                } else {
                                    assert(l0[w + 1] == x);
                                }
                            }
                        }
                    }
                }
                return true;
            }
            i = i + 1;
        }
        proof {
            assert(!old(self).live@.contains(id)) by {
                if old(self).live@.contains(id) {
                    let w = choose|w: int|
                        0 <= w < old(self).live@.len() && old(self).live@[w] == id;
                }
            }
        }
        false
    }
}

} // verus!
