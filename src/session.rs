//! Sessions: the outbound half of each connection, the registry that routes
//! packets to them by id, and the numbering of new sessions.

use vstd::prelude::*;
use futures::sync::mpsc::{Sender, TrySendError};
use crate::packet::{close_signal, MuPacket, PacketView};
use crate::seq_facts::{lemma_push_fresh, lemma_remove_at};

verus! {

/// `futures::sync::mpsc::Sender`, the sending end of a bounded queue; held
/// opaque.
#[verifier::external_type_specification]
#[verifier::external_body]
#[verifier::reject_recursive_types(T)]
pub struct ExSender<T>(Sender<T>);

/// `futures::sync::mpsc::TrySendError`, a refused message; held opaque.
#[verifier::external_type_specification]
#[verifier::external_body]
#[verifier::reject_recursive_types(T)]
pub struct ExTrySendError<T>(TrySendError<T>);

/// Relies on `futures::sync::mpsc::Sender::try_send`: it never blocks; it
/// either queues the message or returns it in an error when the queue is
/// full or its receiver is gone. Which one happens depends on the receiving
/// task, so nothing is stated of the outcome.
pub assume_specification<T>[ Sender::<T>::try_send ](sender: &mut Sender<T>, msg: T) -> (r: Result<
    (),
    TrySendError<T>,
>);

/// Relies on `futures::sync::mpsc::TrySendError::is_disconnected`: tells a
/// dropped receiver from a full queue.
pub assume_specification<T>[ TrySendError::<T>::is_disconnected ](err: &TrySendError<T>) -> (r:
    bool);

/// Which listener or connector a session came from.
#[derive(Clone, Copy, Debug, PartialEq, Eq, Structural)]
pub enum OriginKind {
    /// A game client, on the client-facing listener.
    Client,
    /// A game server, on the server-facing listener or an outbound link.
    GameServer,
}

#[derive(Clone, Copy, Debug, PartialEq, Eq, Structural)]
pub enum NetworkError {
    InvalidAddress,
    TcpBindError,
    Disconnected,
    TxFailed,
    IoError,
    SessionNotFound,
    SessionSendError,
    SessionDisconnected,
    InternalTimerError,
}

/// Failures of one connection's reader or writer.
#[derive(Clone, Copy, Debug, PartialEq, Eq, Structural)]
pub enum TcpSessionError {
    TcpStreamRead,
    TcpStreamWrite,
    TcpStreamFlush,
    SerializationError,
    Closed,
}

/// The sending end of one session: its id, where it came from, and its
/// bounded outbound queue.
#[derive(Debug)]
pub struct SessionRef {
    pub id: u32,
    pub kind: OriginKind,
    pub tx: Sender<MuPacket>,
}

/// Sessions are the same when their ids are; the queue is not compared.
impl PartialEq for SessionRef {
    fn eq(&self, other: &SessionRef) -> (r: bool) {
        self.id == other.id
    }
}

impl vstd::std_specs::cmp::PartialEqSpecImpl for SessionRef {
    open spec fn obeys_eq_spec() -> bool {
        true
    }

    open spec fn eq_spec(&self, other: &SessionRef) -> bool {
        self.id == other.id
    }
}

impl Eq for SessionRef {

}

/// Capacity of each session's outbound queue.
pub const OUTBOUND_QUEUE_CAPACITY: usize = 100;

impl SessionRef {
    pub fn new(id: u32, kind: OriginKind, tx: Sender<MuPacket>) -> (r: SessionRef)
        ensures
            r.id == id,
            r.kind == kind,
    {
        SessionRef { id, kind, tx }
    }

    /// Queues `pkt` without blocking. A full queue gives `SessionSendError`,
    /// a closed one `SessionDisconnected`.
    pub fn send(&mut self, pkt: MuPacket) -> (r: Result<(), NetworkError>)
        ensures
            final(self).id == old(self).id,
            final(self).kind == old(self).kind,
            r is Ok || r == Err::<(), NetworkError>(NetworkError::SessionDisconnected) || r == Err::<
                (),
                NetworkError,
            >(NetworkError::SessionSendError),
    {
        match self.tx.try_send(pkt) {
            Ok(_) => Ok(()),
            Err(err) => {
                if err.is_disconnected() {
                    Err(NetworkError::SessionDisconnected)
                } else {
                    Err(NetworkError::SessionSendError)
                }
            },
        }
    }

    /// Asks the writer to end the session, by queueing the close signal.
    pub fn close(&mut self) -> (r: Result<(), NetworkError>)
        ensures
            final(self).id == old(self).id,
            final(self).kind == old(self).kind,
            r is Ok || r == Err::<(), NetworkError>(NetworkError::SessionDisconnected) || r == Err::<
                (),
                NetworkError,
            >(NetworkError::SessionSendError),
    {
        self.send(MuPacket::empty())
    }
}

/// The writing half of a connection.
pub struct TcpSessionWriter<T> {
    pub io: T,
    pub id: u32,
}

impl<T> TcpSessionWriter<T> {
    pub fn new(io: T, id: u32) -> (r: TcpSessionWriter<T>)
        ensures
            r.io == io,
            r.id == id,
    {
        TcpSessionWriter { io, id }
    }

    /// The bytes to write for a packet taken from the queue; the close
    /// signal is never written and ends the session instead.
    pub fn start_send(&self, item: &MuPacket) -> (r: Result<Vec<u8>, TcpSessionError>)
        ensures
            item@.is_close_signal() ==> r == Err::<Vec<u8>, TcpSessionError>(
                TcpSessionError::Closed,
            ),
            !item@.is_close_signal() ==> r is Ok && r->Ok_0@ == item@.encode(),
    {
        if item.is_empty() {
            return Err(TcpSessionError::Closed);
        }
        Ok(item.to_bytes())
    }
}

/// Gives out session ids: 1, 2, 3, ... for the life of the process, never
/// one twice.
pub struct SessionIds {
    next: u32,
}

impl SessionIds {
    #[verifier::type_invariant]
    spec fn from_one(&self) -> bool {
        self.next >= 1
    }

    /// The id the next allocation gives; every id given so far is below it.
    pub closed spec fn spec_next(&self) -> u32 {
        self.next
    }

    pub fn new() -> (r: SessionIds)
        ensures
            r.spec_next() == 1,
    {
        SessionIds { next: 1 }
    }

    /// A fresh id, or `None` once all ids have been given out.
    pub fn allocate(&mut self) -> (r: Option<u32>)
        ensures
            old(self).spec_next() < u32::MAX ==> r == Some(old(self).spec_next())
                && final(self).spec_next() == old(self).spec_next() + 1,
            old(self).spec_next() == u32::MAX ==> r is None && final(self).spec_next()
                == old(self).spec_next(),
            r matches Some(id) ==> 1 <= id < final(self).spec_next(),
    {
        proof {
            use_type_invariant(&*self);
        }
        if self.next == u32::MAX {
            return None;
        }
        let id = self.next;
        self.next = self.next + 1;
        Some(id)
    }
}

pub open spec fn ids_of(s: Seq<SessionRef>) -> Seq<u32> {
    s.map_values(|r: SessionRef| r.id)
}

/// The routable sessions, by id. Next to them it keeps, for proofs only,
/// the packets each session's queue has accepted so far.
pub struct SessionRegistry {
    sessions: Vec<SessionRef>,
    accepted: Ghost<Map<u32, Seq<PacketView>>>,
}

impl SessionRegistry {
    #[verifier::type_invariant]
    spec fn unique_ids(&self) -> bool {
        ids_of(self.sessions@).no_duplicates()
    }

    /// Ids of the registered sessions, in registration order.
    pub closed spec fn ids(&self) -> Seq<u32> {
        ids_of(self.sessions@)
    }

    /// The packets that the queue of session `id` has accepted since it was
    /// registered.
    pub closed spec fn accepted(&self, id: u32) -> Seq<PacketView> {
        if self.accepted@.contains_key(id) {
            self.accepted@[id]
        } else {
            Seq::empty()
        }
    }

    pub open spec fn has(&self, id: u32) -> bool {
        self.ids().contains(id)
    }

    pub fn new() -> (r: SessionRegistry)
        ensures
            r.ids() == Seq::<u32>::empty(),
            forall|id: u32| #[trigger] r.accepted(id) == Seq::<PacketView>::empty(),
    {
        let r = SessionRegistry { sessions: Vec::new(), accepted: Ghost(Map::empty()) };
        proof {
            assert(ids_of(r.sessions@) =~= Seq::<u32>::empty());
        }
        r
    }

    fn find(&self, id: u32) -> (r: Option<usize>)
        ensures
            r is Some <==> self.has(id),
            r matches Some(i) ==> i < self.ids().len() && self.ids()[i as int] == id
                && self.sessions@[i as int].id == id,
    {
        let mut i: usize = 0;
        while i < self.sessions.len()
            invariant
                0 <= i <= self.sessions@.len(),
                forall|j: int| 0 <= j < i ==> self.sessions@[j].id != id,
            decreases self.sessions@.len() - i,
        {
            if self.sessions[i].id == id {
                proof {
                    assert(self.ids()[i as int] == id);
                }
                return Some(i);
            }
            i += 1;
        }
        proof {
            if self.has(id) {
                let j = self.ids().index_of(id);
                assert(self.ids()[j] == self.sessions@[j].id);
            }
        }
        None
    }

    pub fn contains(&self, id: u32) -> (r: bool)
        ensures
            r == self.has(id),
    {
        self.find(id).is_some()
    }

    pub fn len(&self) -> (r: usize)
        ensures
            r == self.ids().len(),
    {
        self.sessions.len()
    }

    /// Registers a session whose id is not in use; the queue starts with
    /// nothing accepted. Returns `false`, changing nothing, where the id is
    /// taken.
    pub fn insert(&mut self, session: SessionRef) -> (r: bool)
        ensures
            r == !old(self).has(session.id),
            r ==> final(self).ids() == old(self).ids().push(session.id),
            !r ==> final(self).ids() == old(self).ids(),
            forall|id: u32|
                #[trigger] final(self).accepted(id) == if r && id == session.id {
                    Seq::<PacketView>::empty()
                } else {
                    old(self).accepted(id)
                },
    {
        proof {
            use_type_invariant(&*self);
        }
        if self.find(session.id).is_some() {
            return false;
        }
        let id = session.id;
        let ghost old_ids = self.ids();
        let mut sessions: Vec<SessionRef> = Vec::new();
        std::mem::swap(&mut sessions, &mut self.sessions);
        sessions.push(session);
        proof {
            assert(ids_of(sessions@) =~= old_ids.push(id));
            assert(!old_ids.contains(id));
        }
        self.accepted = Ghost(self.accepted@.insert(id, Seq::empty()));
        proof {
            lemma_push_fresh(old_ids, id);
        }
        self.sessions = sessions;
        true
    }

    /// Drops the session with this id, if there is one.
    pub fn remove(&mut self, id: u32) -> (r: Option<SessionRef>)
        ensures
            r is Some <==> old(self).has(id),
            r matches Some(s) ==> s.id == id,
            !final(self).has(id),
            forall|other: u32| other != id ==> (final(self).has(other) <==> old(self).has(other)),
            forall|x: u32| #[trigger] final(self).accepted(x) == old(self).accepted(x),
    {
        proof {
            use_type_invariant(&*self);
        }
        match self.find(id) {
            None => None,
            Some(i) => {
                let ghost old_ids = self.ids();
                let mut sessions: Vec<SessionRef> = Vec::new();
                std::mem::swap(&mut sessions, &mut self.sessions);
                let s = sessions.remove(i);
                proof {
                    assert(ids_of(sessions@) =~= old_ids.remove(i as int));
                    assert(old_ids[i as int] == id);
                    lemma_remove_at(old_ids, i as int);
                }
                self.sessions = sessions;
                Some(s)
            },
        }
    }

    /// Queues `pkt` for the session `id` without blocking.
    pub fn send(&mut self, id: u32, pkt: MuPacket) -> (r: Result<(), NetworkError>)
        ensures
            final(self).ids() == old(self).ids(),
            !old(self).has(id) ==> r == Err::<(), NetworkError>(NetworkError::SessionNotFound),
            old(self).has(id) ==> r != Err::<(), NetworkError>(NetworkError::SessionNotFound),
            r is Ok ==> old(self).has(id),
            forall|x: u32|
                #[trigger] final(self).accepted(x) == if r is Ok && x == id {
                    old(self).accepted(id).push(pkt@)
                } else {
                    old(self).accepted(x)
                },
    {
        proof {
            use_type_invariant(&*self);
        }
        match self.find(id) {
            None => Err(NetworkError::SessionNotFound),
            Some(i) => {
                let ghost sent = pkt@;
                let ghost old_ids = self.ids();
                let mut sessions: Vec<SessionRef> = Vec::new();
                std::mem::swap(&mut sessions, &mut self.sessions);
                let r = sessions[i].send(pkt);
                proof {
                    assert(ids_of(sessions@) =~= old_ids);
                }
                if r.is_ok() {
                    self.accepted = Ghost(self.accepted@.insert(id, self.accepted(id).push(sent)));
                }
                self.sessions = sessions;
                r
            },
        }
    }

    /// Asks the session `id` to close, by queueing the close signal.
    pub fn close(&mut self, id: u32) -> (r: Result<(), NetworkError>)
        ensures
            final(self).ids() == old(self).ids(),
            !old(self).has(id) ==> r == Err::<(), NetworkError>(NetworkError::SessionNotFound),
            old(self).has(id) ==> r != Err::<(), NetworkError>(NetworkError::SessionNotFound),
            forall|x: u32|
                #[trigger] final(self).accepted(x) == if r is Ok && x == id {
                    old(self).accepted(id).push(close_signal())
                } else {
                    old(self).accepted(x)
                },
    {
        let p = MuPacket::empty();
        self.send(id, p)
    }

    /// The registered ids, in registration order.
    pub fn id_list(&self) -> (r: Vec<u32>)
        ensures
            r@ == self.ids(),
    {
        let mut out: Vec<u32> = Vec::new();
        let mut i: usize = 0;
        while i < self.sessions.len()
            invariant
                0 <= i <= self.sessions@.len(),
                out@ == ids_of(self.sessions@.subrange(0, i as int)),
            decreases self.sessions@.len() - i,
        {
            out.push(self.sessions[i].id);
            i += 1;
            proof {
                assert(out@ =~= ids_of(self.sessions@.subrange(0, i as int)));
            }
        }
        proof {
            assert(self.sessions@.subrange(0, self.sessions@.len() as int) =~= self.sessions@);
        }
        out
    }

    /// Queues `pkt` for every registered session and returns the ids whose
    /// queue refused it. A refusal does not remove the session: that waits
    /// for its reader to end.
    pub fn broadcast(&mut self, pkt: &MuPacket) -> (failed: Vec<u32>)
        ensures
            final(self).ids() == old(self).ids(),
            failed@.no_duplicates(),
            forall|x: u32| #[trigger] failed@.contains(x) ==> old(self).has(x),
            forall|x: u32|
                #[trigger] final(self).accepted(x) == if old(self).has(x) && !failed@.contains(x) {
                    old(self).accepted(x).push(pkt@)
                } else {
                    old(self).accepted(x)
                },
    {
        proof {
            use_type_invariant(&*self);
        }
        let ids = self.id_list();
        let mut failed: Vec<u32> = Vec::new();
        let mut i: usize = 0;
        while i < ids.len()
            invariant
                0 <= i <= ids@.len(),
                ids@ == old(self).ids(),
                ids@.no_duplicates(),
                self.ids() == old(self).ids(),
                failed@.no_duplicates(),
                forall|x: u32|
                    #[trigger] failed@.contains(x) ==> ids@.subrange(0, i as int).contains(x),
                forall|x: u32|
                    #[trigger] self.accepted(x) == if ids@.subrange(0, i as int).contains(x)
                        && !failed@.contains(x) {
                        old(self).accepted(x).push(pkt@)
                    } else {
                        old(self).accepted(x)
                    },
            decreases ids@.len() - i,
        {
            let id = ids[i];
            let ghost before = ids@.subrange(0, i as int);
            let ghost failed_before = failed@;
            proof {
                assert(ids@.subrange(0, i + 1) =~= before.push(id));
                assert(!before.contains(id)) by {
                    if before.contains(id) {
                        let k = before.index_of(id);
                        assert(ids@[k] == id);
                    }
                }
                assert(!failed_before.contains(id));
                assert forall|x: u32| before.contains(x) implies #[trigger] before.push(id).contains(
                    x,
                ) by {
                    let k = before.index_of(x);
                    assert(before.push(id)[k] == x);
                }
                assert(before.push(id)[before.len() as int] == id);
            }
            let r = self.send(id, pkt.clone());
            if r.is_err() {
                failed.push(id);
                proof {
                    lemma_push_fresh(failed_before, id);
                }
            }
            i += 1;
        }
        proof {
            assert(ids@.subrange(0, ids@.len() as int) =~= ids@);
        }
        failed
    }
}

} // verus!
