//! Correlation of language-server requests with their responses: each
//! outgoing request gets a fresh monotonic id, waits in the pending table,
//! and leaves it exactly once — on response, timeout, or teardown.

use vstd::prelude::*;

verus! {

/// The ids of requests whose responses are still awaited.
pub struct PendingTable {
    next_id: u64,
    ids: Vec<u64>,
}

impl PendingTable {
    /// The pending ids.
    pub closed spec fn ids(&self) -> Seq<u64> {
        self.ids@
    }

    /// The id the next request will get.
    pub closed spec fn next(&self) -> u64 {
        self.next_id
    }

    /// Whether a request with this id is pending.
    pub open spec fn pending(&self, id: u64) -> bool {
        self.ids().contains(id)
    }

    /// Ids are distinct and all lie below the counter.
    pub open spec fn wf(&self) -> bool {
        &&& forall|i: int, j: int|
            0 <= i < j < self.ids().len() ==> self.ids()[i] != self.ids()[j]
        &&& forall|i: int| 0 <= i < self.ids().len() ==> (#[trigger] self.ids()[i]) < self.next()
    }

    /// An empty table; ids start at one, as the handshake's request shows.
    pub fn new() -> (r: PendingTable)
        ensures
            r.wf(),
            r.ids() == Seq::<u64>::empty(),
            r.next() == 1,
    {
        PendingTable { next_id: 1, ids: Vec::new() }
    }

    /// Whether another id can still be issued.
    pub fn can_issue(&self) -> (r: bool)
        ensures
            r == (self.next() < u64::MAX),
    {
        self.next_id < u64::MAX
    }

    /// Issues a fresh id and registers it as pending. The id never collides
    /// with any id issued before, taken or not.
    pub fn issue(&mut self) -> (id: u64)
        requires
            old(self).wf(),
            old(self).next() < u64::MAX,
        ensures
            final(self).wf(),
            id == old(self).next(),
            !old(self).pending(id),
            final(self).pending(id),
            final(self).next() == old(self).next() + 1,
            forall|other: u64| other != id ==> final(self).pending(other) == old(self).pending(other),
    {
        let id = self.next_id;
        proof {
            if old(self).pending(id) {
                let i = choose|i: int| 0 <= i < self.ids().len() && self.ids()[i] == id;
                assert(self.ids()[i] < id);
            }
        }
        self.ids.push(id);
        self.next_id = self.next_id + 1;
        proof {
            assert(self.ids()[self.ids().len() - 1] == id);
            assert forall|other: u64| other != id implies final(self).pending(other) == old(
                self,
            ).pending(other) by {
                if final(self).pending(other) {
                    let i = choose|i: int|
                        0 <= i < self.ids().len() && self.ids()[i] == other;
                    assert(i < old(self).ids().len());
                    assert(old(self).ids()[i] == other);
                }
                if old(self).pending(other) {
                    let i = choose|i: int|
                        0 <= i < old(self).ids().len() && old(self).ids()[i] == other;
                    assert(self.ids()[i] == other);
                }
            }
        }
        id
    }

    /// Takes the pending entry for `id`, if any: after this, the id is no
    /// longer pending, whether the wait ended in a response, a timeout, or
    /// the server's exit.
    #[verifier::loop_isolation(false)]
    pub fn take(&mut self, id: u64) -> (was: bool)
        requires
            old(self).wf(),
        ensures
            final(self).wf(),
            was == old(self).pending(id),
            !final(self).pending(id),
            final(self).next() == old(self).next(),
            forall|other: u64| other != id ==> final(self).pending(other) == old(self).pending(other),
    {
        let ghost oldids = self.ids@;
        proof {
            assert(oldids == old(self).ids());
        }
        let mut k: usize = 0;
        while k < self.ids.len()
            invariant
                k <= self.ids@.len(),
                self.ids@ == oldids,
                self.next() == old(self).next(),
                forall|t: int| 0 <= t < k ==> (#[trigger] oldids[t]) != id,
            decreases self.ids@.len() - k,
        {
            if self.ids[k] == id {
                let _ = self.ids.remove(k);
                proof {
                    let ni = self.ids@;
                    assert(ni =~= oldids.remove(k as int));
                    assert forall|i: int, j: int| 0 <= i < j < ni.len() implies ni[i]
                        != ni[j] by {
                        let i0: int = if i < k {
                            i
                        } else {
                            i + 1
                        };
                        let j0: int = if j < k {
                            j
                        } else {
                            j + 1
                        };
                        assert(ni[i] == oldids[i0] && ni[j] == oldids[j0]);
                        assert(old(self).ids()[i0] != old(self).ids()[j0]);
                    }
                    assert forall|t: int| 0 <= t < ni.len() implies (#[trigger] ni[t]) != id by {
                        let t0: int = if t < k {
                            t
                        } else {
                            t + 1
                        };
                        assert(ni[t] == oldids[t0]);
                        if t0 > k {
                            assert(old(self).ids()[k as int] != old(self).ids()[t0]);
                        }
                    }
                    assert forall|i: int| 0 <= i < ni.len() implies (#[trigger] ni[i])
                        < self.next() by {
                        let i0: int = if i < k {
                            i
                        } else {
                            i + 1
                        };
                        assert(ni[i] == oldids[i0]);
                        assert(old(self).ids()[i0] < old(self).next());
                    }
                    assert(!final(self).pending(id));
                    assert(old(self).pending(id)) by {
                        assert(oldids[k as int] == id);
                    }
                    assert forall|other: u64| other != id implies final(self).pending(other)
                        == old(self).pending(other) by {
                        if final(self).pending(other) {
                            let i = choose|i: int| 0 <= i < ni.len() && ni[i] == other;
                            let i0: int = if i < k {
                                i
                            } else {
                                i + 1
                            };
                            assert(oldids[i0] == other);
                        }
                        if old(self).pending(other) {
                            let i = choose|i: int|
                                0 <= i < oldids.len() && oldids[i] == other;
                            assert(i != k);
                            let i0: int = if i < k {
                                i
                            } else {
                                i - 1
                            };
                            assert(ni[i0] == other);
                        }
                    }
                }
                return true;
            }
            k = k + 1;
        }
        proof {
            assert(final(self).ids() == old(self).ids());
            let fin = *final(self);
            assert forall|i: int, j: int|
                0 <= i < j < fin.ids().len() implies fin.ids()[i] != fin.ids()[j] by {
                assert(old(self).ids()[i] != old(self).ids()[j]);
            }
            assert forall|i: int| 0 <= i < fin.ids().len() implies (#[trigger] fin.ids()[i])
                < fin.next() by {
                assert(old(self).ids()[i] < old(self).next());
            }
            if old(self).pending(id) {
                let i = choose|i: int| 0 <= i < oldids.len() && oldids[i] == id;
                assert(oldids[i] != id);
            }
        }
        false
    }
}

/// No pending entry leaks: once a request's wait has ended and its id was
/// taken, nothing the broker later does — issuing new requests or settling
/// other ones — makes that id pending again.
pub proof fn lemma_settled_stays_settled(before: PendingTable, after: PendingTable, id: u64)
    requires
        before.wf(),
        !before.pending(id),
        id < before.next(),
        after.wf(),
        after.next() >= before.next(),
        forall|other: u64|
            after.pending(other) ==> before.pending(other) || other >= before.next(),
    ensures
        !after.pending(id),
{
}

} // verus!
