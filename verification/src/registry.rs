//! The daemon's session registry: sessions keyed by a caller-supplied id,
//! where spawning under a taken id replaces the old session and a kill
//! removes it.

use vstd::prelude::*;
use crate::protocol::{SessionInfo, SessionInfoV, infos_view, opt_str_view};

verus! {

/// One registered session: its reported description and the handle the
/// surrounding process uses to reach its terminal.
pub struct SessionEntry<H> {
    pub info: SessionInfo,
    pub handle: H,
}

/// The registry model: descriptions in insertion order.
pub open spec fn entry_infos<H>(s: Seq<SessionEntry<H>>) -> Seq<SessionInfoV> {
    Seq::new(s.len(), |i: int| s[i].info@)
}

/// Index of the entry with the given id, if any.
pub open spec fn spec_index_of(infos: Seq<SessionInfoV>, id: Seq<char>) -> Option<int> {
    if exists|k: int| 0 <= k < infos.len() && (#[trigger] infos[k]).id == id {
        Some(choose|k: int| 0 <= k < infos.len() && (#[trigger] infos[k]).id == id)
    } else {
        None
    }
}

/// The description registered under an id, if any.
pub open spec fn spec_lookup(infos: Seq<SessionInfoV>, id: Seq<char>) -> Option<SessionInfoV> {
    match spec_index_of(infos, id) {
        Some(k) => Some(infos[k]),
        None => None,
    }
}

/// All ids distinct.
pub open spec fn unique_ids(infos: Seq<SessionInfoV>) -> bool {
    forall|i: int, j: int|
        0 <= i < j < infos.len() ==> (#[trigger] infos[i]).id != (#[trigger] infos[j]).id
}

/// The sessions the daemon owns.
pub struct SessionRegistry<H> {
    entries: Vec<SessionEntry<H>>,
}

impl<H> SessionRegistry<H> {
    /// The registered descriptions, in insertion order.
    pub closed spec fn infos(&self) -> Seq<SessionInfoV> {
        entry_infos(self.entries@)
    }

    /// The handles, aligned with the descriptions.
    pub closed spec fn handles(&self) -> Seq<H> {
        Seq::new(self.entries@.len(), |i: int| self.entries@[i].handle)
    }

    /// Each id names at most one session.
    pub open spec fn wf(&self) -> bool {
        unique_ids(self.infos())
    }

    /// Whether a session with this id is registered.
    pub open spec fn has(&self, id: Seq<char>) -> bool {
        spec_lookup(self.infos(), id) is Some
    }

    /// An empty registry.
    pub fn new() -> (r: SessionRegistry<H>)
        ensures
            r.wf(),
            r.infos() == Seq::<SessionInfoV>::empty(),
    {
        let r = SessionRegistry { entries: Vec::new() };
        proof {
            assert(r.infos() =~= Seq::<SessionInfoV>::empty());
        }
        r
    }

    /// Position of the entry with the given id.
    fn position(&self, id: &String) -> (r: Option<usize>)
        ensures
            match r {
                Some(k) => k < self.infos().len() && self.infos()[k as int].id == id@,
                None => forall|k: int|
                    0 <= k < self.infos().len() ==> (#[trigger] self.infos()[k]).id != id@,
            },
    {
        let mut k: usize = 0;
        while k < self.entries.len()
            invariant
                k <= self.entries@.len(),
                forall|t: int| 0 <= t < k ==> (#[trigger] self.infos()[t]).id != id@,
            decreases self.entries@.len() - k,
        {
            if self.entries[k].info.id == *id {
                assert(self.infos()[k as int].id == id@);
                return Some(k);
            }
            assert(self.infos()[k as int].id != id@);
            k = k + 1;
        }
        None
    }

    /// Whether a session with this id is registered.
    pub fn contains(&self, id: &String) -> (r: bool)
        ensures
            r == self.has(id@),
    {
        let r = self.position(id);
        proof {
            match r {
                Some(k) => {
                    assert(spec_index_of(self.infos(), id@) is Some);
                },
                None => {
                    assert(spec_index_of(self.infos(), id@) is None);
                },
            }
        }
        r.is_some()
    }

    /// Registers a session under `id`, replacing any session that id already
    /// names; the replacement keeps the old position, a new id is appended.
    /// The displaced session's handle comes back so the caller can tear the
    /// old session down: its streams must observe the replacement.
    pub fn install(&mut self, info: SessionInfo, handle: H) -> (displaced: Option<H>)
        requires
            old(self).wf(),
        ensures
            final(self).wf(),
            spec_lookup(final(self).infos(), info@.id) == Some(info@),
            exists|k: int|
                0 <= k < final(self).infos().len() && (#[trigger] final(self).infos()[k]).id
                    == info@.id && final(self).handles()[k] == handle,
            displaced is Some <==> old(self).has(info@.id),
            displaced matches Some(h) ==> exists|k: int|
                0 <= k < old(self).infos().len() && (#[trigger] old(self).infos()[k]).id
                    == info@.id && old(self).handles()[k] == h,
            forall|other: Seq<char>|
                other != info@.id ==> spec_lookup(final(self).infos(), other) == spec_lookup(
                    old(self).infos(),
                    other,
                ),
            final(self).infos().len() == if old(self).has(info@.id) {
                old(self).infos().len()
            } else {
                old(self).infos().len() + 1
            },
    {
        let ghost oldinfos = self.infos();
        match self.position(&info.id) {
            Some(k) => {
                let ghost newinfo = info@;
                let old_entry = self.entries.remove(k);
                self.entries.insert(k, SessionEntry { info, handle });
                proof {
                    let ni = self.infos();
                    assert(ni =~= oldinfos.update(k as int, newinfo));
                    assert(ni[k as int].id == newinfo.id);
                    lemma_lookup_update(oldinfos, k as int, newinfo);
                    assert(spec_index_of(oldinfos, newinfo.id) is Some);
                }
                Some(old_entry.handle)
            },
            None => {
                let ghost newinfo = info@;
                self.entries.push(SessionEntry { info, handle });
                proof {
                    let ni = self.infos();
                    assert(ni =~= oldinfos.push(newinfo));
                    lemma_lookup_push(oldinfos, newinfo);
                }
                None
            },
        }
    }

    /// Removes the session with this id, handing back its handle for
    /// teardown; absent ids leave the registry unchanged.
    pub fn remove(&mut self, id: &String) -> (r: Option<H>)
        requires
            old(self).wf(),
        ensures
            final(self).wf(),
            r is Some <==> old(self).has(id@),
            r matches Some(h) ==> exists|k: int|
                0 <= k < old(self).infos().len() && (#[trigger] old(self).infos()[k]).id == id@
                    && old(self).handles()[k] == h,
            spec_lookup(final(self).infos(), id@) is None,
            forall|other: Seq<char>|
                other != id@ ==> spec_lookup(final(self).infos(), other) == spec_lookup(
                    old(self).infos(),
                    other,
                ),
    {
        let ghost oldinfos = self.infos();
        match self.position(id) {
            Some(k) => {
                proof {
                    assert(spec_index_of(oldinfos, id@) is Some);
                }
                let entry = self.entries.remove(k);
                proof {
                    let ni = self.infos();
                    assert(ni =~= oldinfos.remove(k as int));
                    lemma_lookup_remove(oldinfos, k as int);
                }
                Some(entry.handle)
            },
            None => {
                proof {
                    assert(spec_index_of(oldinfos, id@) is None);
                    lemma_lookup_absent(oldinfos, id@);
                }
                None
            },
        }
    }

    /// A borrowed handle for the session with this id.
    pub fn handle<'a>(&'a self, id: &String) -> (r: Option<&'a H>)
        ensures
            r is Some <==> self.has(id@),
            r matches Some(h) ==> exists|k: int|
                0 <= k < self.infos().len() && (#[trigger] self.infos()[k]).id == id@
                    && self.handles()[k] == *h,
    {
        match self.position(id) {
            Some(k) => {
                proof {
                    assert(spec_index_of(self.infos(), id@) is Some);
                }
                Some(&self.entries[k].handle)
            },
            None => {
                proof {
                    lemma_lookup_absent(self.infos(), id@);
                }
                None
            },
        }
    }

    /// The description registered under this id.
    pub fn get_info(&self, id: &String) -> (r: Option<SessionInfo>)
        requires
            self.wf(),
        ensures
            match r {
                Some(info) => spec_lookup(self.infos(), id@) == Some(info@),
                None => spec_lookup(self.infos(), id@) is None,
            },
    {
        match self.position(id) {
            Some(k) => {
                proof {
                    lemma_lookup_unique(self.infos(), k as int);
                }
                Some(self.entries[k].info.clone())
            },
            None => {
                proof {
                    lemma_lookup_absent(self.infos(), id@);
                }
                None
            },
        }
    }

    /// Descriptions of every registered session, in insertion order.
    pub fn list(&self) -> (r: Vec<SessionInfo>)
        ensures
            infos_view(r@) == self.infos(),
    {
        let mut out: Vec<SessionInfo> = Vec::new();
        let mut k: usize = 0;
        while k < self.entries.len()
            invariant
                k <= self.entries@.len(),
                out@.len() == k,
                forall|t: int| 0 <= t < k ==> (#[trigger] out@[t])@ == self.infos()[t],
            decreases self.entries@.len() - k,
        {
            out.push(self.entries[k].info.clone());
            k = k + 1;
        }
        proof {
            assert(infos_view(out@) =~= self.infos());
        }
        out
    }
}

impl Clone for SessionInfo {
    /// An equal description.
    fn clone(&self) -> (r: SessionInfo)
        ensures
            r@ == self@,
    {
        SessionInfo {
            id: self.id.clone(),
            cwd: match &self.cwd {
                Some(s) => Some(s.clone()),
                None => None,
            },
            rows: self.rows,
            cols: self.cols,
            alive: self.alive,
        }
    }
}

// ---------------------------------------------------------------------------
// Lookup facts
// ---------------------------------------------------------------------------
proof fn lemma_lookup_absent(infos: Seq<SessionInfoV>, id: Seq<char>)
    requires
        forall|k: int| 0 <= k < infos.len() ==> (#[trigger] infos[k]).id != id,
    ensures
        spec_lookup(infos, id) is None,
{
}

/// With unique ids, the entry found at any matching position is the lookup
/// result.
proof fn lemma_lookup_unique(infos: Seq<SessionInfoV>, k: int)
    requires
        unique_ids(infos),
        0 <= k < infos.len(),
    ensures
        spec_lookup(infos, infos[k].id) == Some(infos[k]),
{
    let id = infos[k].id;
    assert(spec_index_of(infos, id) is Some);
    let t = spec_index_of(infos, id).unwrap();
    if t != k {
        if t < k {
            assert(infos[t].id != infos[k].id);
        } else {
            assert(infos[k].id != infos[t].id);
        }
    }
}

proof fn lemma_lookup_update(infos: Seq<SessionInfoV>, k: int, newinfo: SessionInfoV)
    requires
        unique_ids(infos),
        0 <= k < infos.len(),
        infos[k].id == newinfo.id,
    ensures
        unique_ids(infos.update(k, newinfo)),
        spec_lookup(infos.update(k, newinfo), newinfo.id) == Some(newinfo),
        forall|other: Seq<char>|
            other != newinfo.id ==> spec_lookup(infos.update(k, newinfo), other) == spec_lookup(
                infos,
                other,
            ),
{
    let ni = infos.update(k, newinfo);
    assert forall|i: int, j: int| 0 <= i < j < ni.len() implies (#[trigger] ni[i]).id != (
    #[trigger] ni[j]).id by {
        assert(infos[i].id != infos[j].id);
    }
    lemma_lookup_unique(ni, k);
    assert forall|other: Seq<char>| other != newinfo.id implies spec_lookup(ni, other)
        == spec_lookup(infos, other) by {
        assert forall|t: int| 0 <= t < infos.len() && (#[trigger] infos[t]).id == other implies
        exists|u: int| 0 <= u < ni.len() && ni[u] == infos[t] by {
            assert(t != k);
            assert(ni[t] == infos[t]);
        }
        assert forall|t: int| 0 <= t < ni.len() && (#[trigger] ni[t]).id == other implies exists|
            u: int,
        | 0 <= u < infos.len() && infos[u] == ni[t] by {
            assert(t != k);
            assert(infos[t] == ni[t]);
        }
        lemma_lookup_frame(infos, ni, other);
    }
}

proof fn lemma_lookup_push(infos: Seq<SessionInfoV>, newinfo: SessionInfoV)
    requires
        unique_ids(infos),
        spec_lookup(infos, newinfo.id) is None,
    ensures
        unique_ids(infos.push(newinfo)),
        spec_lookup(infos.push(newinfo), newinfo.id) == Some(newinfo),
        forall|other: Seq<char>|
            other != newinfo.id ==> spec_lookup(infos.push(newinfo), other) == spec_lookup(
                infos,
                other,
            ),
{
    let ni = infos.push(newinfo);
    assert forall|i: int| 0 <= i < infos.len() implies (#[trigger] infos[i]).id != newinfo.id by {
        if infos[i].id == newinfo.id {
            assert(spec_index_of(infos, newinfo.id) is Some);
        }
    }
    assert forall|i: int, j: int| 0 <= i < j < ni.len() implies (#[trigger] ni[i]).id != (
    #[trigger] ni[j]).id by {
        if j < infos.len() {
            assert(infos[i].id != infos[j].id);
        } else {
            assert(ni[i].id != newinfo.id);
        }
    }
    lemma_lookup_unique(ni, infos.len() as int);
    assert forall|other: Seq<char>| other != newinfo.id implies spec_lookup(ni, other)
        == spec_lookup(infos, other) by {
        assert forall|t: int| 0 <= t < infos.len() && (#[trigger] infos[t]).id == other implies
        exists|u: int| 0 <= u < ni.len() && ni[u] == infos[t] by {
            assert(ni[t] == infos[t]);
        }
        assert forall|t: int| 0 <= t < ni.len() && (#[trigger] ni[t]).id == other implies exists|
            u: int,
        | 0 <= u < infos.len() && infos[u] == ni[t] by {
            assert(t < infos.len());
            assert(infos[t] == ni[t]);
        }
        lemma_lookup_frame(infos, ni, other);
    }
}

proof fn lemma_lookup_remove(infos: Seq<SessionInfoV>, k: int)
    requires
        unique_ids(infos),
        0 <= k < infos.len(),
    ensures
        unique_ids(infos.remove(k)),
        spec_lookup(infos.remove(k), infos[k].id) is None,
        forall|other: Seq<char>|
            other != infos[k].id ==> spec_lookup(infos.remove(k), other) == spec_lookup(
                infos,
                other,
            ),
{
    let ni = infos.remove(k);
    assert forall|i: int, j: int| 0 <= i < j < ni.len() implies (#[trigger] ni[i]).id != (
    #[trigger] ni[j]).id by {
        let i0: int = if i < k {
            i
        } else {
            i + 1
        };
        let j0: int = if j < k {
            j
        } else {
            j + 1
        };
        assert(ni[i] == infos[i0] && ni[j] == infos[j0]);
        assert(infos[i0].id != infos[j0].id);
    }
    assert forall|t: int| 0 <= t < ni.len() implies (#[trigger] ni[t]).id != infos[k].id by {
        let t0: int = if t < k {
            t
        } else {
            t + 1
        };
        assert(ni[t] == infos[t0]);
        if t0 < k {
            assert(infos[t0].id != infos[k].id);
        } else {
            assert(infos[k].id != infos[t0].id);
        }
    }
    lemma_lookup_absent(ni, infos[k].id);
    assert forall|other: Seq<char>| other != infos[k].id implies spec_lookup(ni, other)
        == spec_lookup(infos, other) by {
        assert forall|t: int| 0 <= t < infos.len() && (#[trigger] infos[t]).id == other implies
        exists|u: int| 0 <= u < ni.len() && ni[u] == infos[t] by {
            assert(t != k);
            let u: int = if t < k {
                t
            } else {
                t - 1
            };
            assert(ni[u] == infos[t]);
        }
        assert forall|t: int| 0 <= t < ni.len() && (#[trigger] ni[t]).id == other implies exists|
            u: int,
        | 0 <= u < infos.len() && infos[u] == ni[t] by {
            let u: int = if t < k {
                t
            } else {
                t + 1
            };
            assert(infos[u] == ni[t]);
        }
        lemma_lookup_frame(infos, ni, other);
    }
}

/// Two registries that hold the same entries for an id agree on its lookup.
proof fn lemma_lookup_frame(a: Seq<SessionInfoV>, b: Seq<SessionInfoV>, id: Seq<char>)
    requires
        unique_ids(a),
        unique_ids(b),
        forall|k: int|
            0 <= k < a.len() && (#[trigger] a[k]).id == id ==> exists|t: int|
                0 <= t < b.len() && b[t] == a[k],
        forall|k: int|
            0 <= k < b.len() && (#[trigger] b[k]).id == id ==> exists|t: int|
                0 <= t < a.len() && a[t] == b[k],
    ensures
        spec_lookup(a, id) == spec_lookup(b, id),
{
    match spec_index_of(a, id) {
        Some(k) => {
            let t = choose|t: int| 0 <= t < b.len() && b[t] == a[k];
            lemma_lookup_unique(b, t);
            lemma_lookup_unique(a, k);
        },
        None => {
            match spec_index_of(b, id) {
                Some(k) => {
                    let t = choose|t: int| 0 <= t < a.len() && a[t] == b[k];
                    assert(spec_index_of(a, id) is Some);
                },
                None => {},
            }
        },
    }
}

// ---------------------------------------------------------------------------
// The registry laws: a spawned session is listed until its kill
// ---------------------------------------------------------------------------
/// Once registered, a session appears in the listing.
pub proof fn lemma_registered_is_listed(infos: Seq<SessionInfoV>, id: Seq<char>)
    requires
        spec_lookup(infos, id) is Some,
    ensures
        exists|k: int|
            0 <= k < infos.len() && (#[trigger] infos[k]) == spec_lookup(infos, id).unwrap()
            && infos[k].id == id,
{
    let k = spec_index_of(infos, id).unwrap();
    assert(infos[k] == spec_lookup(infos, id).unwrap() && infos[k].id == id);
}

/// Only listed sessions are registered.
pub proof fn lemma_listed_is_registered(infos: Seq<SessionInfoV>, k: int)
    requires
        unique_ids(infos),
        0 <= k < infos.len(),
    ensures
        spec_lookup(infos, infos[k].id) == Some(infos[k]),
{
    lemma_lookup_unique(infos, k);
}

} // verus!
