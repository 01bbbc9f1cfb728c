//! The daemon's per-command decisions: what each client line does to the
//! registry and which reply it earns, and the per-connection attachment
//! bookkeeping.

use vstd::prelude::*;
use crate::protocol::{
    ClientMessage, ServerMessage, SessionInfo, SessionInfoV, ServerMessageV, ClientMessageV,
    spec_parse_client_line, opt_str_view,
};
use crate::registry::{SessionRegistry, spec_lookup};

verus! {

/// Decodes one received line; an undecodable line earns the error reply that
/// keeps the connection open.
pub fn decode_command(line: &[u8]) -> (r: Result<ClientMessage, ServerMessage>)
    requires
        2 * line@.len() + 2 <= usize::MAX,
    ensures
        match r {
            Ok(cmd) => spec_parse_client_line(line@) == Some(cmd@),
            Err(reply) => spec_parse_client_line(line@) is None && reply@
                == (ServerMessageV::Error { message: "Invalid message: malformed command"@ }),
        },
{
    match ClientMessage::parse_line(line) {
        Some(cmd) => Ok(cmd),
        None => Err(ServerMessage::Error { message: String::from_str("Invalid message: malformed command") }),
    }
}

/// The liveness probe's reply.
pub fn ping_reply() -> (r: ServerMessage)
    ensures
        r@ == ServerMessageV::Pong,
{
    ServerMessage::Pong
}

/// The `List` reply: every registered session, in insertion order.
pub fn list_sessions<H>(reg: &SessionRegistry<H>) -> (r: ServerMessage)
    ensures
        r@ == (ServerMessageV::Sessions { sessions: reg.infos() }),
{
    ServerMessage::Sessions { sessions: reg.list() }
}

/// Registers a freshly spawned session, replacing any session under the same
/// id, and builds the `Spawned` reply. A displaced session's handle comes
/// back: the caller must tear it down, so that streams attached to the old
/// session observe it as gone.
pub fn spawn_session<H>(
    reg: &mut SessionRegistry<H>,
    id: String,
    cwd: Option<String>,
    rows: u16,
    cols: u16,
    handle: H,
) -> (r: (ServerMessage, Option<H>))
    requires
        old(reg).wf(),
    ensures
        final(reg).wf(),
        spec_lookup(final(reg).infos(), id@) == Some(
            SessionInfoV { id: id@, cwd: opt_str_view(cwd), rows, cols, alive: true },
        ),
        exists|k: int|
            0 <= k < final(reg).infos().len() && (#[trigger] final(reg).infos()[k]).id == id@
                && final(reg).handles()[k] == handle,
        r.1 is Some <==> old(reg).has(id@),
        r.1 matches Some(h) ==> exists|k: int|
            0 <= k < old(reg).infos().len() && (#[trigger] old(reg).infos()[k]).id == id@
                && old(reg).handles()[k] == h,
        forall|other: Seq<char>|
            other != id@ ==> spec_lookup(final(reg).infos(), other) == spec_lookup(
                old(reg).infos(),
                other,
            ),
        r.0@ == (ServerMessageV::Spawned { session_id: id@ }),
{
    let reply_id = id.clone();
    let info = SessionInfo { id, cwd, rows, cols, alive: true };
    let displaced = reg.install(info, handle);
    (ServerMessage::Spawned { session_id: reply_id }, displaced)
}

/// Finds the session a `Write` or `Resize` addresses, or the not-found error
/// reply.
pub fn find_session<'a, H>(reg: &'a SessionRegistry<H>, id: &String) -> (r: Result<
    &'a H,
    ServerMessage,
>)
    ensures
        match r {
            Ok(h) => reg.has(id@) && exists|k: int|
                0 <= k < reg.infos().len() && (#[trigger] reg.infos()[k]).id == id@
                    && reg.handles()[k] == *h,
            Err(reply) => !reg.has(id@) && reply@ == (ServerMessageV::Error {
                message: "Session not found"@,
            }),
        },
{
    match reg.handle(id) {
        Some(h) => Ok(h),
        None => Err(ServerMessage::Error { message: String::from_str("Session not found") }),
    }
}

/// Removes the killed session and hands its handle out for teardown, or
/// earns the not-found error.
pub fn kill_session<H>(reg: &mut SessionRegistry<H>, id: &String) -> (r: (
    ServerMessage,
    Option<H>,
))
    requires
        old(reg).wf(),
    ensures
        final(reg).wf(),
        spec_lookup(final(reg).infos(), id@) is None,
        forall|other: Seq<char>|
            other != id@ ==> spec_lookup(final(reg).infos(), other) == spec_lookup(
                old(reg).infos(),
                other,
            ),
        old(reg).has(id@) ==> r.0@ == ServerMessageV::Acked && r.1 is Some,
        r.1 matches Some(h) ==> exists|k: int|
            0 <= k < old(reg).infos().len() && (#[trigger] old(reg).infos()[k]).id == id@
                && old(reg).handles()[k] == h,
        !old(reg).has(id@) ==> r.0@ == (ServerMessageV::Error { message: "Session not found"@ })
            && r.1 is None,
{
    match reg.remove(id) {
        Some(h) => (ServerMessage::Acked, Some(h)),
        None => (
            (ServerMessage::Error { message: String::from_str("Session not found") }),
            None,
        ),
    }
}

/// Maps the outcome of the terminal I/O a command asked for to its reply:
/// acknowledged, or the error's text.
pub fn io_result_reply(outcome: Result<(), String>) -> (r: ServerMessage)
    ensures
        match outcome {
            Ok(_) => r@ == ServerMessageV::Acked,
            Err(e) => r@ == (ServerMessageV::Error { message: e@ }),
        },
{
    match outcome {
        Ok(_) => ServerMessage::Acked,
        Err(message) => ServerMessage::Error { message },
    }
}

/// The first reply of an attachment: the scroll-back snapshot and the
/// session's dimensions.
pub fn attached_reply(info: &SessionInfo, buffer: String) -> (r: ServerMessage)
    ensures
        r@ == (ServerMessageV::Attached {
            session_id: info@.id,
            buffer: buffer@,
            rows: info@.rows,
            cols: info@.cols,
        }),
{
    ServerMessage::Attached {
        session_id: info.id.clone(),
        buffer,
        rows: info.rows,
        cols: info.cols,
    }
}

// ---------------------------------------------------------------------------
// Per-connection attachments
// ---------------------------------------------------------------------------
/// The attachment keys of a connection, in insertion order.
pub open spec fn attachment_keys<C>(s: Seq<(String, C)>) -> Seq<Seq<char>> {
    Seq::new(s.len(), |i: int| s[i].0@)
}

/// A connection's attachments: for each session the client is attached to,
/// the cancel token of the task streaming that session's output. A client
/// holds at most one attachment per session; attaching again hands the old
/// token back so the prior stream is cancelled first.
pub struct AttachmentSet<C> {
    entries: Vec<(String, C)>,
}

impl<C> AttachmentSet<C> {
    /// The attached session ids, in insertion order.
    pub closed spec fn keys(&self) -> Seq<Seq<char>> {
        attachment_keys(self.entries@)
    }

    /// The cancel tokens, aligned with the ids.
    pub closed spec fn tokens(&self) -> Seq<C> {
        Seq::new(self.entries@.len(), |i: int| self.entries@[i].1)
    }

    /// At most one attachment per session.
    pub open spec fn wf(&self) -> bool {
        forall|i: int, j: int|
            0 <= i < j < self.keys().len() ==> self.keys()[i] != self.keys()[j]
    }

    /// Whether this connection is attached to the session.
    pub open spec fn attached(&self, id: Seq<char>) -> bool {
        exists|i: int| 0 <= i < self.keys().len() && self.keys()[i] == id
    }

    /// No attachments yet.
    pub fn new() -> (r: AttachmentSet<C>)
        ensures
            r.wf(),
            r.keys() == Seq::<Seq<char>>::empty(),
    {
        let r = AttachmentSet { entries: Vec::new() };
        proof {
            assert(r.keys() =~= Seq::<Seq<char>>::empty());
        }
        r
    }

    /// Position of the attachment for this session.
    fn position(&self, id: &String) -> (r: Option<usize>)
        ensures
            match r {
                Some(k) => k < self.keys().len() && self.keys()[k as int] == id@,
                None => !self.attached(id@),
            },
    {
        let mut k: usize = 0;
        while k < self.entries.len()
            invariant
                k <= self.entries@.len(),
                forall|t: int| 0 <= t < k ==> (#[trigger] self.keys()[t]) != id@,
            decreases self.entries@.len() - k,
        {
            if self.entries[k].0 == *id {
                assert(self.keys()[k as int] == id@);
                return Some(k);
            }
            assert(self.keys()[k as int] != id@);
            k = k + 1;
        }
        None
    }

    /// Records an attachment to `id` with a fresh cancel token. The token of
    /// a prior attachment to the same session comes back and must be
    /// signalled: one session, one stream per connection.
    pub fn attach(&mut self, id: String, cancel: C) -> (r: Option<C>)
        requires
            old(self).wf(),
        ensures
            final(self).wf(),
            final(self).attached(id@),
            r is Some <==> old(self).attached(id@),
            forall|other: Seq<char>|
                other != id@ ==> (final(self).attached(other) <==> old(self).attached(other)),
    {
        match self.position(&id) {
            Some(k) => {
                let ghost oldkeys = self.keys();
                let old_entry = self.entries.remove(k);
                self.entries.insert(k, (id, cancel));
                proof {
                    assert(self.keys() =~= oldkeys);
                }
                Some(old_entry.1)
            },
            None => {
                let ghost oldkeys = self.keys();
                let ghost idv = id@;
                self.entries.push((id, cancel));
                proof {
                    assert(self.keys() =~= oldkeys.push(idv));
                    assert(self.keys()[oldkeys.len() as int] == idv);
                    assert forall|other: Seq<char>| other != idv implies (self.attached(other)
                        <==> old(self).attached(other)) by {
                        if self.attached(other) {
                            let i = choose|i: int|
                                0 <= i < self.keys().len() && self.keys()[i] == other;
                            assert(i < oldkeys.len());
                            assert(oldkeys[i] == other);
                        }
                        if old(self).attached(other) {
                            let i = choose|i: int|
                                0 <= i < oldkeys.len() && oldkeys[i] == other;
                            assert(self.keys()[i] == other);
                        }
                    }
                }
                None
            },
        }
    }

    /// Removes the attachment to `id`, handing back its cancel token so the
    /// stream stops; a detach from a session never attached is a no-op.
    pub fn detach(&mut self, id: &String) -> (r: Option<C>)
        requires
            old(self).wf(),
        ensures
            final(self).wf(),
            !final(self).attached(id@),
            r is Some <==> old(self).attached(id@),
            forall|other: Seq<char>|
                other != id@ ==> (final(self).attached(other) <==> old(self).attached(other)),
    {
        match self.position(id) {
            Some(k) => {
                let ghost oldkeys = self.keys();
                let entry = self.entries.remove(k);
                proof {
                    assert(self.keys() =~= oldkeys.remove(k as int));
                    let nk = self.keys();
                    assert forall|i: int, j: int| 0 <= i < j < nk.len() implies nk[i] != nk[j] by {
                        let i0: int = if i < k {
                            i
                        } else {
                            i + 1
                        };
                        let j0: int = if j < k {
                            j
                        } else {
                            j + 1
                        };
                        assert(nk[i] == oldkeys[i0] && nk[j] == oldkeys[j0]);
                    }
                    assert forall|t: int| 0 <= t < nk.len() implies (#[trigger] nk[t])
                        != id@ by {
                        let t0: int = if t < k {
                            t
                        } else {
                            t + 1
                        };
                        assert(nk[t] == oldkeys[t0]);
                        if t0 < k {
                            assert(oldkeys[t0] != oldkeys[k as int]);
                        } else {
                            assert(oldkeys[k as int] != oldkeys[t0]);
                        }
                    }
                    assert forall|other: Seq<char>| other != id@ implies (self.attached(other)
                        <==> old(self).attached(other)) by {
                        if self.attached(other) {
                            let i = choose|i: int| 0 <= i < nk.len() && nk[i] == other;
                            let i0: int = if i < k {
                                i
                            } else {
                                i + 1
                            };
                            assert(oldkeys[i0] == other);
                        }
                        if old(self).attached(other) {
                            let i = choose|i: int|
                                0 <= i < oldkeys.len() && oldkeys[i] == other;
                            assert(i != k);
                            let i0: int = if i < k {
                                i
                            } else {
                                i - 1
                            };
                            assert(nk[i0] == other);
                        }
                    }
                }
                Some(entry.1)
            },
            None => None,
        }
    }

    /// Removes every attachment, handing all cancel tokens back: when a
    /// connection closes, each of its streaming tasks is cancelled.
    pub fn take_all(&mut self) -> (r: Vec<(String, C)>)
        requires
            old(self).wf(),
        ensures
            final(self).wf(),
            final(self).keys() == Seq::<Seq<char>>::empty(),
            attachment_keys(r@) == old(self).keys(),
    {
        let mut taken: Vec<(String, C)> = Vec::new();
        core::mem::swap(&mut taken, &mut self.entries);
        proof {
            assert(self.keys() =~= Seq::<Seq<char>>::empty());
            assert(attachment_keys(taken@) =~= old(self).keys());
        }
        taken
    }
}

} // verus!
