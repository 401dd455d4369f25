//! The registry of sessions.

use bytes::Bytes;
use smoltcp::iface::SocketHandle;
use std::collections::VecDeque;
use vstd::prelude::*;

use crate::addr::IpEndpoint;
use crate::engine::payload::{all_octets, octets};
use crate::session::types::{Destination, SessionKey};
use crate::table::Table;
use crate::InterfaceId;

verus! {

/// Receive queue of a UDP session.
///
/// The stack pushes datagrams into the queue; the session pops them from it. The
/// queue is closed when the session is reclaimed.
pub struct UdpQueue {
    pub inner: VecDeque<Bytes>,
    pub closed: bool,
}

/// What a receive queue holds.
pub struct QueueModel {
    /// The datagrams that wait to be received, the oldest first.
    pub pending: Seq<Seq<u8>>,
    pub closed: bool,
}

impl UdpQueue {
    pub open spec fn view(&self) -> QueueModel {
        QueueModel { pending: all_octets(self.inner@), closed: self.closed }
    }

    pub fn new() -> (queue: UdpQueue)
        ensures
            queue@ == (QueueModel { pending: Seq::empty(), closed: false }),
    {
        let queue = UdpQueue { inner: VecDeque::new(), closed: false };
        assert(queue@.pending =~= Seq::empty());
        queue
    }

    /// Appends a datagram.
    pub fn push(&mut self, data: Bytes)
        ensures
            final(self)@ == (QueueModel {
                pending: old(self)@.pending.push(octets(data)),
                ..old(self)@
            }),
    {
        self.inner.push_back(data);
        assert(self@.pending =~= old(self)@.pending.push(octets(data)));
    }

    /// Takes the oldest datagram, if one is buffered.
    pub fn pop(&mut self) -> (data: Option<Bytes>)
        ensures
            match data {
                Some(d) => {
                    &&& old(self)@.pending.len() > 0
                    &&& octets(d) == old(self)@.pending[0]
                    &&& final(self)@ == (QueueModel {
                        pending: old(self)@.pending.skip(1),
                        ..old(self)@
                    })
                },
                None => old(self)@.pending.len() == 0 && final(self)@ == old(self)@,
            },
    {
        let data = self.inner.pop_front();
        assert(data is Some ==> self@.pending =~= old(self)@.pending.skip(1));
        data
    }

    pub fn mark_closed(&mut self)
        ensures
            final(self)@ == (QueueModel { closed: true, ..old(self)@ }),
    {
        self.closed = true;
    }

    pub fn is_closed(&self) -> (closed: bool)
        ensures
            closed == self@.closed,
    {
        self.closed
    }
}

/// The receive queues of all UDP sessions, each under a number of its own. A queue
/// stays until its session is gone, so that what was received before the session
/// was reclaimed can still be read.
pub struct QueueStore {
    slots: Vec<Option<UdpQueue>>,
}

impl QueueStore {
    pub closed spec fn view(&self) -> Map<usize, QueueModel> {
        Map::new(
            |id: usize| id < self.slots@.len() && self.slots@[id as int] is Some,
            |id: usize| self.slots@[id as int]->0@,
        )
    }

    pub fn new() -> (store: QueueStore)
        ensures
            store@ == Map::<usize, QueueModel>::empty(),
    {
        let store = QueueStore { slots: Vec::new() };
        assert(store@ =~= Map::<usize, QueueModel>::empty());
        store
    }

    /// Stores a queue under a number that no queue of the store has.
    pub fn add(&mut self, queue: UdpQueue) -> (id: usize)
        ensures
            !old(self)@.contains_key(id),
            final(self)@ == old(self)@.insert(id, queue@),
    {
        let mut id: usize = 0;
        while id < self.slots.len()
            invariant
                id <= self.slots@.len(),
                *self == *old(self),
            decreases self.slots@.len() - id,
        {
            if self.slots[id].is_none() {
                self.slots.set(id, Some(queue));
                assert(self@ =~= old(self)@.insert(id, queue@));
                return id;
            }
            id += 1;
        }
        self.slots.push(Some(queue));
        assert(self@ =~= old(self)@.insert(id, queue@));
        id
    }

    pub fn get_mut(&mut self, id: usize) -> (queue: Option<&mut UdpQueue>)
        ensures
            match queue {
                Some(q) => old(self)@.contains_key(id) && (*q)@ == old(self)@[id] && final(self)@
                    == old(self)@.insert(id, (*final(q))@),
                None => !old(self)@.contains_key(id) && final(self)@ == old(self)@,
            },
    {
        if id < self.slots.len() {
            let ghost before = *self;
            match &mut self.slots[id] {
                Some(q) => {
                    proof {
                        assert(after_borrow(self)@ =~= before@.insert(id, (*final(q))@));
                    }
                    Some(q)
                },
                None => None,
            }
        } else {
            None
        }
    }

    /// Takes a queue out of the store.
    pub fn remove(&mut self, id: usize)
        ensures
            final(self)@ == old(self)@.remove(id),
    {
        if id < self.slots.len() {
            self.slots.set(id, None);
        }
        assert(self@ =~= old(self)@.remove(id));
    }
}

/// Lifecycle state of a TCP session.
#[derive(Debug, Clone, Copy, PartialEq, Eq, Structural)]
pub enum TcpState {
    /// The listen socket was allocated but the handshake is not complete.
    Pending,
    /// The handshake completed; the session has been handed to the application.
    Established,
    /// The connection is over; reads observe the end of the stream.
    Closed,
}

/// Bookkeeping for a TCP connection.
#[derive(Clone, Copy)]
pub struct TcpEntry {
    pub handle: SocketHandle,
    pub state: TcpState,
    /// Set when the application dropped the stream. The socket is reclaimed once
    /// the connection is fully closed.
    pub orphaned: bool,
}

/// Bookkeeping for a UDP session.
#[derive(Clone, Copy)]
pub struct UdpEntry {
    /// The socket that carries replies to the application.
    pub socket: SocketHandle,
    /// The number of the session's receive queue.
    pub queue: usize,
    /// When something was last sent to or by the application, in microseconds.
    pub last_activity: i64,
}

/// A UDP socket and the number of sessions that share it.
#[derive(Clone, Copy)]
pub struct SharedSocket {
    pub handle: SocketHandle,
    pub count: usize,
}

/// Central registry of every active session.
pub struct SessionManager {
    pub tcp: Table<SessionKey, TcpEntry>,
    pub udp: Table<SessionKey, UdpEntry>,
    /// One UDP socket per interface and destination, shared by all sessions whose
    /// destination matches: the engine tells incoming datagrams apart by their
    /// destination only, so they are told apart by source here.
    pub udp_dst_sockets: Table<Destination, SharedSocket>,
    pub queues: QueueStore,
}

impl SessionManager {
    pub open spec fn wf(&self) -> bool {
        &&& self.tcp.wf()
        &&& self.udp.wf()
        &&& self.udp_dst_sockets.wf()
    }

    /// A registry without sessions.
    pub fn new() -> (manager: SessionManager)
        ensures
            manager.wf(),
            manager.tcp@ == Map::<SessionKey, TcpEntry>::empty(),
            manager.udp@ == Map::<SessionKey, UdpEntry>::empty(),
            manager.udp_dst_sockets@ == Map::<Destination, SharedSocket>::empty(),
            manager.queues@ == Map::<usize, QueueModel>::empty(),
    {
        SessionManager {
            tcp: Table::new(),
            udp: Table::new(),
            udp_dst_sockets: Table::new(),
            queues: QueueStore::new(),
        }
    }

    pub fn get_tcp(&self, key: &SessionKey) -> (entry: Option<&TcpEntry>)
        requires
            self.wf(),
        ensures
            match entry {
                Some(e) => self.tcp@.contains_key(*key) && *e == self.tcp@[*key],
                None => !self.tcp@.contains_key(*key),
            },
    {
        self.tcp.get(key)
    }

    pub fn get_udp(&self, key: &SessionKey) -> (entry: Option<&UdpEntry>)
        requires
            self.wf(),
        ensures
            match entry {
                Some(e) => self.udp@.contains_key(*key) && *e == self.udp@[*key],
                None => !self.udp@.contains_key(*key),
            },
    {
        self.udp.get(key)
    }

    /// The shared UDP socket for a destination. Where there is none yet, `created`
    /// becomes it, used by no session so far; `None` if that could not be created.
    pub fn udp_socket_for(
        &mut self,
        interface: InterfaceId,
        dst: IpEndpoint,
        created: Option<SocketHandle>,
    ) -> (handle: Option<SocketHandle>)
        requires
            old(self).wf(),
        ensures
            final(self).wf(),
            final(self).tcp == old(self).tcp,
            final(self).udp == old(self).udp,
            final(self).queues == old(self).queues,
            ({
                let before = old(self).udp_dst_sockets@;
                let after = final(self).udp_dst_sockets@;
                let key = Destination { interface, dst };
                if before.contains_key(key) {
                    handle == Some(before[key].handle) && after == before
                } else {
                    handle == created && after == match created {
                        Some(h) => before.insert(key, SharedSocket { handle: h, count: 0 }),
                        None => before,
                    }
                }
            }),
    {
        let key = Destination { interface, dst };
        if let Some(shared) = self.udp_dst_sockets.get(&key) {
            return Some(shared.handle);
        }
        match created {
            Some(handle) => {
                self.udp_dst_sockets.insert(key, SharedSocket { handle, count: 0 });
                Some(handle)
            },
            None => None,
        }
    }

    /// Counts one more session on a shared UDP socket.
    pub fn udp_socket_retain(&mut self, interface: InterfaceId, dst: IpEndpoint)
        requires
            old(self).wf(),
            ({
                let key = Destination { interface, dst };
                old(self).udp_dst_sockets@.contains_key(key) ==> old(
                    self,
                ).udp_dst_sockets@[key].count < usize::MAX
            }),
        ensures
            final(self).wf(),
            final(self).tcp == old(self).tcp,
            final(self).udp == old(self).udp,
            final(self).queues == old(self).queues,
            ({
                let before = old(self).udp_dst_sockets@;
                let key = Destination { interface, dst };
                final(self).udp_dst_sockets@ == if before.contains_key(key) {
                    before.insert(
                        key,
                        SharedSocket {
                            handle: before[key].handle,
                            count: (before[key].count + 1) as usize,
                        },
                    )
                } else {
                    before
                }
            }),
    {
        if let Some(shared) = self.udp_dst_sockets.get_mut(&Destination { interface, dst }) {
            shared.count += 1;
        }
    }

    /// Counts one session less on a shared UDP socket, and forgets the socket once
    /// no session uses it. Tells whether it did.
    pub fn udp_socket_release(&mut self, interface: InterfaceId, dst: IpEndpoint) -> (released: bool)
        requires
            old(self).wf(),
        ensures
            final(self).wf(),
            final(self).tcp == old(self).tcp,
            final(self).udp == old(self).udp,
            final(self).queues == old(self).queues,
            ({
                let before = old(self).udp_dst_sockets@;
                let after = final(self).udp_dst_sockets@;
                let key = Destination { interface, dst };
                &&& released == (before.contains_key(key) && before[key].count <= 1)
                &&& after == if !before.contains_key(key) {
                    before
                } else if before[key].count <= 1 {
                    before.remove(key)
                } else {
                    before.insert(
                        key,
                        SharedSocket {
                            handle: before[key].handle,
                            count: (before[key].count - 1) as usize,
                        },
                    )
                }
            }),
    {
        let key = Destination { interface, dst };
        let left: usize = match self.udp_dst_sockets.get_mut(&key) {
            Some(shared) => {
                shared.count = shared.count.saturating_sub(1);
                shared.count
            },
            None => return false,
        };
        if left == 0 {
            let _ = self.udp_dst_sockets.remove(&key);
            assert(self.udp_dst_sockets@ =~= old(self).udp_dst_sockets@.remove(key));
            return true;
        }
        false
    }
}

} // verus!
