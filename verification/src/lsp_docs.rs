//! Per-project open-document state: which documents are open and at which
//! version, and which notification each editor operation must send.

use vstd::prelude::*;

verus! {

/// The open documents of one project, with their version numbers.
pub struct DocumentTable {
    docs: Vec<(String, i32)>,
}

/// The model: uri and version of each open document, in insertion order.
pub open spec fn doc_entries(s: Seq<(String, i32)>) -> Seq<(Seq<char>, i32)> {
    Seq::new(s.len(), |i: int| (s[i].0@, s[i].1))
}

/// The version an open uri has, if it is open.
pub open spec fn doc_version(docs: Seq<(Seq<char>, i32)>, uri: Seq<char>) -> Option<i32> {
    if exists|k: int| 0 <= k < docs.len() && (#[trigger] docs[k]).0 == uri {
        Some(docs[choose|k: int| 0 <= k < docs.len() && (#[trigger] docs[k]).0 == uri].1)
    } else {
        None
    }
}

/// What a `change` call must send.
pub enum ChangeAction {
    /// The document was not open: it is now, and exactly one `didOpen` with
    /// version one goes out. No `didChange` is sent.
    SendOpen,
    /// The document was open: its version advanced, and one `didChange`
    /// carrying that version goes out.
    SendChange { version: i32 },
}

impl DocumentTable {
    /// The table's model.
    pub closed spec fn model(&self) -> Seq<(Seq<char>, i32)> {
        doc_entries(self.docs@)
    }

    /// Every uri open at most once, every version at least one.
    pub open spec fn wf(&self) -> bool {
        &&& forall|i: int, j: int|
            0 <= i < j < self.model().len() ==> (#[trigger] self.model()[i]).0 != (
            #[trigger] self.model()[j]).0
        &&& forall|i: int| 0 <= i < self.model().len() ==> (#[trigger] self.model()[i]).1 >= 1
    }

    /// Whether the document is open.
    pub open spec fn is_open(&self, uri: Seq<char>) -> bool {
        doc_version(self.model(), uri) is Some
    }

    /// No documents open.
    pub fn new() -> (r: DocumentTable)
        ensures
            r.wf(),
            r.model() == Seq::<(Seq<char>, i32)>::empty(),
    {
        let r = DocumentTable { docs: Vec::new() };
        proof {
            assert(r.model() =~= Seq::<(Seq<char>, i32)>::empty());
        }
        r
    }

    /// Position of the entry for this uri.
    fn position(&self, uri: &String) -> (r: Option<usize>)
        ensures
            match r {
                Some(k) => k < self.model().len() && self.model()[k as int].0 == uri@,
                None => forall|t: int|
                    0 <= t < self.model().len() ==> (#[trigger] self.model()[t]).0 != uri@,
            },
    {
        let mut k: usize = 0;
        while k < self.docs.len()
            invariant
                k <= self.docs@.len(),
                forall|t: int| 0 <= t < k ==> (#[trigger] self.model()[t]).0 != uri@,
            decreases self.docs@.len() - k,
        {
            if self.docs[k].0 == *uri {
                assert(self.model()[k as int].0 == uri@);
                return Some(k);
            }
            assert(self.model()[k as int].0 != uri@);
            k = k + 1;
        }
        None
    }

    /// With distinct uris, the entry at a matching position is the version.
    proof fn lemma_version_at(&self, k: int)
        requires
            self.wf(),
            0 <= k < self.model().len(),
        ensures
            doc_version(self.model(), self.model()[k].0) == Some(self.model()[k].1),
    {
        let uri = self.model()[k].0;
        assert(exists|t: int| 0 <= t < self.model().len() && (#[trigger] self.model()[t]).0 == uri);
        let t = choose|t: int| 0 <= t < self.model().len() && (#[trigger] self.model()[t]).0 == uri;
        if t != k {
            if t < k {
                assert(self.model()[t].0 != self.model()[k].0);
            } else {
                assert(self.model()[k].0 != self.model()[t].0);
            }
        }
    }

    /// Opens a document: absent, it is registered at version one and a
    /// `didOpen` with version one goes out; already open, nothing is sent.
    pub fn open_document(&mut self, uri: &String) -> (sends_open: bool)
        requires
            old(self).wf(),
        ensures
            final(self).wf(),
            sends_open == !old(self).is_open(uri@),
            doc_version(final(self).model(), uri@) == Some(
                if old(self).is_open(uri@) {
                    doc_version(old(self).model(), uri@).unwrap()
                } else {
                    1i32
                },
            ),
            forall|other: Seq<char>|
                other != uri@ ==> doc_version(final(self).model(), other) == doc_version(
                    old(self).model(),
                    other,
                ),
    {
        match self.position(uri) {
            Some(k) => {
                proof {
                    self.lemma_version_at(k as int);
                }
                false
            },
            None => {
                let ghost oldm = self.model();
                self.docs.push((uri.clone(), 1));
                proof {
                    assert(self.model() =~= oldm.push((uri@, 1i32)));
                    self.lemma_push_effect(oldm, uri@, 1i32);
                }
                true
            },
        }
    }

    /// Changes a document: open, its version advances by one and a
    /// `didChange` with the new version goes out; not open, the call
    /// upgrades to an open, sending exactly one `didOpen` with version one
    /// and no `didChange`.
    pub fn change_document(&mut self, uri: &String) -> (r: ChangeAction)
        requires
            old(self).wf(),
            doc_version(old(self).model(), uri@) matches Some(v) ==> v < i32::MAX,
        ensures
            final(self).wf(),
            match r {
                ChangeAction::SendOpen => !old(self).is_open(uri@) && doc_version(
                    final(self).model(),
                    uri@,
                ) == Some(1i32),
                ChangeAction::SendChange { version } => {
                    &&& old(self).is_open(uri@)
                    &&& version == doc_version(old(self).model(), uri@).unwrap() + 1
                    &&& doc_version(final(self).model(), uri@) == Some(version)
                    &&& version >= 2
                },
            },
            forall|other: Seq<char>|
                other != uri@ ==> doc_version(final(self).model(), other) == doc_version(
                    old(self).model(),
                    other,
                ),
    {
        match self.position(uri) {
            Some(k) => {
                proof {
                    self.lemma_version_at(k as int);
                }
                let ghost oldm = self.model();
                let v = self.docs[k].1;
                let nv = v + 1;
                let key = self.docs[k].0.clone();
                let _ = self.docs.remove(k);
                self.docs.insert(k, (key, nv));
                proof {
                    assert(self.model() =~= oldm.update(k as int, (uri@, nv)));
                    self.lemma_update_effect(oldm, k as int, nv);
                }
                ChangeAction::SendChange { version: nv }
            },
            None => {
                let ghost oldm = self.model();
                self.docs.push((uri.clone(), 1));
                proof {
                    assert(self.model() =~= oldm.push((uri@, 1i32)));
                    self.lemma_push_effect(oldm, uri@, 1i32);
                }
                ChangeAction::SendOpen
            },
        }
    }

    /// Closes a document: its entry goes away and a `didClose` goes out;
    /// closing an unopened document only sends the notification.
    pub fn close_document(&mut self, uri: &String)
        requires
            old(self).wf(),
        ensures
            final(self).wf(),
            doc_version(final(self).model(), uri@) is None,
            forall|other: Seq<char>|
                other != uri@ ==> doc_version(final(self).model(), other) == doc_version(
                    old(self).model(),
                    other,
                ),
    {
        let ghost oldm = self.model();
        match self.position(uri) {
            Some(k) => {
                let _ = self.docs.remove(k);
                proof {
                    assert(self.model() =~= oldm.remove(k as int));
                    self.lemma_remove_effect(oldm, k as int);
                }
            },
            None => {
                proof {
                    if doc_version(oldm, uri@) is Some {
                        let t = choose|t: int|
                            0 <= t < oldm.len() && (#[trigger] oldm[t]).0 == uri@;
                        assert(oldm[t].0 != uri@);
                    }
                }
            },
        }
    }

    proof fn lemma_push_effect(&self, oldm: Seq<(Seq<char>, i32)>, uri: Seq<char>, v: i32)
        requires
            self.model() == oldm.push((uri, v)),
            v >= 1,
            forall|t: int| 0 <= t < oldm.len() ==> (#[trigger] oldm[t]).0 != uri,
            forall|i: int, j: int|
                0 <= i < j < oldm.len() ==> (#[trigger] oldm[i]).0 != (#[trigger] oldm[j]).0,
            forall|i: int| 0 <= i < oldm.len() ==> (#[trigger] oldm[i]).1 >= 1,
        ensures
            self.wf(),
            doc_version(self.model(), uri) == Some(v),
            forall|other: Seq<char>|
                other != uri ==> doc_version(self.model(), other) == doc_version(oldm, other),
    {
        let nm = self.model();
        assert forall|i: int, j: int| 0 <= i < j < nm.len() implies (#[trigger] nm[i]).0 != (
        #[trigger] nm[j]).0 by {
            if j < oldm.len() {
                assert(oldm[i].0 != oldm[j].0);
            } else {
                assert(nm[i].0 == oldm[i].0 && nm[j].0 == uri);
            }
        }
        self.lemma_version_at(oldm.len() as int);
        assert forall|other: Seq<char>| other != uri implies doc_version(nm, other) == doc_version(
            oldm,
            other,
        ) by {
            if doc_version(nm, other) is Some {
                let i = choose|i: int| 0 <= i < nm.len() && (#[trigger] nm[i]).0 == other;
                assert(i < oldm.len());
                assert(oldm[i].0 == other);
                self.lemma_version_at(i);
                lemma_doc_version_at(oldm, i);
            }
            if doc_version(oldm, other) is Some {
                let i = choose|i: int| 0 <= i < oldm.len() && (#[trigger] oldm[i]).0 == other;
                assert(nm[i].0 == other);
                self.lemma_version_at(i);
                lemma_doc_version_at(oldm, i);
            }
        }
    }

    proof fn lemma_update_effect(&self, oldm: Seq<(Seq<char>, i32)>, k: int, nv: i32)
        requires
            0 <= k < oldm.len(),
            self.model() == oldm.update(k, (oldm[k].0, nv)),
            nv >= 1,
            forall|i: int, j: int|
                0 <= i < j < oldm.len() ==> (#[trigger] oldm[i]).0 != (#[trigger] oldm[j]).0,
            forall|i: int| 0 <= i < oldm.len() ==> (#[trigger] oldm[i]).1 >= 1,
        ensures
            self.wf(),
            doc_version(self.model(), oldm[k].0) == Some(nv),
            forall|other: Seq<char>|
                other != oldm[k].0 ==> doc_version(self.model(), other) == doc_version(
                    oldm,
                    other,
                ),
    {
        let nm = self.model();
        assert forall|i: int, j: int| 0 <= i < j < nm.len() implies (#[trigger] nm[i]).0 != (
        #[trigger] nm[j]).0 by {
            assert(oldm[i].0 != oldm[j].0);
        }
        self.lemma_version_at(k);
        assert forall|other: Seq<char>| other != oldm[k].0 implies doc_version(nm, other)
            == doc_version(oldm, other) by {
            if doc_version(nm, other) is Some {
                let i = choose|i: int| 0 <= i < nm.len() && (#[trigger] nm[i]).0 == other;
                assert(i != k);
                assert(oldm[i].0 == other);
                self.lemma_version_at(i);
                lemma_doc_version_at(oldm, i);
            }
            if doc_version(oldm, other) is Some {
                let i = choose|i: int| 0 <= i < oldm.len() && (#[trigger] oldm[i]).0 == other;
                assert(i != k);
                assert(nm[i].0 == other);
                self.lemma_version_at(i);
                lemma_doc_version_at(oldm, i);
            }
        }
    }

    proof fn lemma_remove_effect(&self, oldm: Seq<(Seq<char>, i32)>, k: int)
        requires
            0 <= k < oldm.len(),
            self.model() == oldm.remove(k),
            forall|i: int, j: int|
                0 <= i < j < oldm.len() ==> (#[trigger] oldm[i]).0 != (#[trigger] oldm[j]).0,
            forall|i: int| 0 <= i < oldm.len() ==> (#[trigger] oldm[i]).1 >= 1,
        ensures
            self.wf(),
            doc_version(self.model(), oldm[k].0) is None,
            forall|other: Seq<char>|
                other != oldm[k].0 ==> doc_version(self.model(), other) == doc_version(
                    oldm,
                    other,
                ),
    {
        let nm = self.model();
        assert forall|i: int, j: int| 0 <= i < j < nm.len() implies (#[trigger] nm[i]).0 != (
        #[trigger] nm[j]).0 by {
            let i0: int = if i < k {
                i
            } else {
                i + 1
            };
            let j0: int = if j < k {
                j
            } else {
                j + 1
            };
            assert(nm[i] == oldm[i0] && nm[j] == oldm[j0]);
            assert(oldm[i0].0 != oldm[j0].0);
        }
        assert forall|t: int| 0 <= t < nm.len() implies (#[trigger] nm[t]).0 != oldm[k].0 by {
            let t0: int = if t < k {
                t
            } else {
                t + 1
            };
            assert(nm[t] == oldm[t0]);
            if t0 < k {
                assert(oldm[t0].0 != oldm[k].0);
            } else {
                assert(oldm[k].0 != oldm[t0].0);
            }
        }
        assert forall|other: Seq<char>| other != oldm[k].0 implies doc_version(nm, other)
            == doc_version(oldm, other) by {
            if doc_version(nm, other) is Some {
                let i = choose|i: int| 0 <= i < nm.len() && (#[trigger] nm[i]).0 == other;
                let i0: int = if i < k {
                    i
                } else {
                    i + 1
                };
                assert(oldm[i0].0 == other);
                self.lemma_version_at(i);
                lemma_doc_version_at(oldm, i0);
            }
            if doc_version(oldm, other) is Some {
                let i = choose|i: int| 0 <= i < oldm.len() && (#[trigger] oldm[i]).0 == other;
                assert(i != k);
                let i0: int = if i < k {
                    i
                } else {
                    i - 1
                };
                assert(nm[i0].0 == other);
                self.lemma_version_at(i0);
                lemma_doc_version_at(oldm, i);
            }
        }
    }
}

/// With distinct uris, a matching position determines the looked-up version.
proof fn lemma_doc_version_at(docs: Seq<(Seq<char>, i32)>, k: int)
    requires
        0 <= k < docs.len(),
        forall|i: int, j: int|
            0 <= i < j < docs.len() ==> (#[trigger] docs[i]).0 != (#[trigger] docs[j]).0,
    ensures
        doc_version(docs, docs[k].0) == Some(docs[k].1),
{
    let uri = docs[k].0;
    assert(exists|t: int| 0 <= t < docs.len() && (#[trigger] docs[t]).0 == uri);
    let t = choose|t: int| 0 <= t < docs.len() && (#[trigger] docs[t]).0 == uri;
    if t != k {
        if t < k {
            assert(docs[t].0 != docs[k].0);
        } else {
            assert(docs[k].0 != docs[t].0);
        }
    }
}

/// Versions only climb: across any two successive `change_document` calls
/// for one uri, the second `didChange` carries a strictly larger version
/// than the first, and the first `didChange` after an open carries exactly
/// two. So the `didChange` versions of a document form a strictly
/// increasing run starting at two.
pub proof fn lemma_change_versions_increase(
    m0: Seq<(Seq<char>, i32)>,
    m1: Seq<(Seq<char>, i32)>,
    m2: Seq<(Seq<char>, i32)>,
    uri: Seq<char>,
    a1: ChangeAction,
    a2: ChangeAction,
)
    requires
        match a1 {
            ChangeAction::SendOpen => doc_version(m1, uri) == Some(1i32),
            ChangeAction::SendChange { version } => {
                &&& version == doc_version(m0, uri).unwrap() + 1
                &&& doc_version(m1, uri) == Some(version)
                &&& version >= 2
            },
        },
        match a2 {
            ChangeAction::SendOpen => doc_version(m1, uri) is None,
            ChangeAction::SendChange { version } => {
                &&& version == doc_version(m1, uri).unwrap() + 1
                &&& doc_version(m2, uri) == Some(version)
                &&& version >= 2
            },
        },
    ensures
        a2 is SendChange,
        a1 matches ChangeAction::SendChange { version: v1 } ==> (a2 matches
            ChangeAction::SendChange { version: v2 } && v2 == v1 + 1 && v2 > v1 >= 2),
        a1 is SendOpen ==> (a2 matches ChangeAction::SendChange { version: v2 } && v2 == 2),
{
}

} // verus!
