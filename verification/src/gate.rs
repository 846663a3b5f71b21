//! The per-credential single-flight gate.
//!
//! At most one refresh may be in flight per credential id: `acquire`
//! succeeds only while nobody holds that id, and every later caller gets
//! `false` until the holder lets go. The surrounding application parks
//! those callers on the holder's result; this module carries the
//! exclusivity.

use vstd::prelude::*;

verus! {

/// The ids with a refresh in flight.
#[derive(Debug)]
pub struct RefreshGates {
    pub held: Vec<u64>,
}

/// The id is held.
pub open spec fn gate_held(s: Seq<u64>, id: u64) -> bool {
    exists|i: int| 0 <= i < s.len() && #[trigger] s[i] == id
}

impl RefreshGates {
    /// Each held id appears once.
    pub open spec fn wf(&self) -> bool {
        forall|i: int, j: int|
            0 <= i < self.held@.len() && 0 <= j < self.held@.len() && i != j
                ==> #[trigger] self.held@[i] != #[trigger] self.held@[j]
    }

    /// No gate is held.
    pub fn new() -> (r: Self)
        ensures
            r.wf(),
            forall|id: u64| !gate_held(r.held@, id),
    {
        RefreshGates { held: Vec::new() }
    }

    /// Whether a refresh for the id is in flight.
    pub fn holds(&self, id: u64) -> (r: bool)
        ensures
            r == gate_held(self.held@, id),
    {
        let n = self.held.len();
        let mut i: usize = 0;
        while i < n
            invariant
                i <= n,
                n == self.held@.len(),
                forall|j: int| 0 <= j < i ==> #[trigger] self.held@[j] != id,
            decreases n - i,
        {
            if self.held[i] == id {
                return true;
            }
            i = i + 1;
        }
        false
    }

    /// Takes the slot for the id. The grant is exclusive: it succeeds
    /// exactly when nobody holds the id, and afterwards the id is held, so
    /// every further acquire for it fails until the holder lets go.
    pub fn acquire(&mut self, id: u64) -> (granted: bool)
        requires
            old(self).wf(),
        ensures
            final(self).wf(),
            granted == !gate_held(old(self).held@, id),
            gate_held(final(self).held@, id),
            forall|other: u64|
                other != id ==> gate_held(final(self).held@, other) == gate_held(
                    old(self).held@,
                    other,
                ),
    {
        if self.holds(id) {
            false
        } else {
            self.held.push(id);
            proof {
                assert(self.held@ =~= old(self).held@.push(id));
                assert(self.held@[old(self).held@.len() as int] == id);
                assert(forall|k: int|
                    0 <= k < old(self).held@.len() ==> #[trigger] self.held@[k] == old(
                        self,
                    ).held@[k]);
                assert(forall|other: u64|
                    other != id && gate_held(old(self).held@, other) ==> gate_held(
                        self.held@,
                        other,
                    )) by {
                    assert forall|other: u64|
                        other != id && gate_held(old(self).held@, other) implies gate_held(
                        self.held@,
                        other,
                    ) by {
                        let w = choose|i: int|
                            0 <= i < old(self).held@.len() && #[trigger] old(self).held@[i]
                                == other;
                        assert(self.held@[w] == other);
                    }
                }
            }
            true
        }
    }

    /// Lets go of the slot for the id.
    pub fn release(&mut self, id: u64)
        requires
            old(self).wf(),
        ensures
            final(self).wf(),
            !gate_held(final(self).held@, id),
            forall|other: u64|
                other != id ==> gate_held(final(self).held@, other) == gate_held(
                    old(self).held@,
                    other,
                ),
    {
        let n = self.held.len();
        let mut i: usize = 0;
        while i < n
            invariant
                i <= n,
                n == self.held@.len(),
                self.wf(),
                self.held@ == old(self).held@,
                forall|j: int| 0 <= j < i ==> #[trigger] self.held@[j] != id,
            decreases n - i,
        {
            if self.held[i] == id {
                let _ = self.held.remove(i);
                proof {
                    assert(self.held@ =~= old(self).held@.remove(i as int));
                    assert(forall|k: int| 0 <= k < i ==> self.held@[k] == old(self).held@[k]);
                    assert(forall|k: int|
                        i <= k < self.held@.len() ==> self.held@[k] == old(self).held@[k + 1]);
                    assert(forall|k: int|
                        0 <= k < self.held@.len() ==> #[trigger] self.held@[k] != id);
                    assert(forall|other: u64|
                        other != id && gate_held(old(self).held@, other) ==> gate_held(
                            self.held@,
                            other,
                        )) by {
                        assert forall|other: u64|
                            other != id && gate_held(old(self).held@, other) implies gate_held(
                            self.held@,
                            other,
                        ) by {
                            let w = choose|k: int|
                                0 <= k < old(self).held@.len() && #[trigger] old(self).held@[k]
                                    == other;
                            if w < i as int {
                                assert(self.held@[w] == other);
                            } else {
                                assert(old(self).held@[w] != id);
                                assert(w > i as int);
                                assert(self.held@[w - 1] == other);
                            }
                        }
                    }
                    assert(forall|other: u64|
                        other != id && gate_held(self.held@, other) ==> gate_held(
                            old(self).held@,
                            other,
                        )) by {
                        assert forall|other: u64|
                            other != id && gate_held(self.held@, other) implies gate_held(
                            old(self).held@,
                            other,
                        ) by {
                            let w = choose|k: int|
                                0 <= k < self.held@.len() && #[trigger] self.held@[k] == other;
                            if w < i as int {
                                assert(old(self).held@[w] == other);
                            } else {
                                assert(old(self).held@[w + 1] == other);
                            }
                        }
                    }
                }
                return ;
            }
            i = i + 1;
        }
    }
}

} // verus!
