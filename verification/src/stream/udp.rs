//! UDP sessions.

use bytes::Bytes;
use smoltcp::iface::SocketHandle;
use vstd::prelude::*;

use crate::addr::IpEndpoint;
use crate::engine::payload::{self, octets};
use crate::engine::socket_set::SocketModel;
use crate::engine::udp_socket::{self, Datagram, UdpModel, UdpSendError};
use crate::error::NetstackError;
use crate::model::{lemma_with_socket, SocketId, StackModel};
use crate::model::queues::{lemma_with_queue, lemma_without_queue};
use crate::model::udp::lemma_with_udp_activity;
use crate::runner::post::remove_udp;
use crate::session::manager::{QueueModel, UdpEntry};
use crate::session::types::SessionKey;
use crate::state::Core;
use crate::InterfaceId;

verus! {

/// What came of an attempt to receive.
#[derive(Debug)]
pub enum RecvOutcome {
    /// The oldest datagram that had not been received.
    Datagram(Bytes),
    /// Nothing is left, and the session has been reclaimed.
    Closed,
    /// Nothing is there now; later there may be.
    Empty,
}

/// What came of an attempt to send.
#[derive(Debug)]
pub enum SendOutcome {
    Sent,
    /// The send buffer has no room; later it may.
    Full,
    Failed(NetstackError),
}

/// A UDP pseudo-session, identified by its 5-tuple.
///
/// The stack relays datagrams between the local application (see
/// [`src_addr`](Self::src_addr)) and the destination the application wanted to
/// reach (see [`dst_addr`](Self::dst_addr)).
#[derive(Debug)]
pub struct WayUdpSession {
    pub interface: InterfaceId,
    pub key: SessionKey,
    pub socket: SocketHandle,
    pub queue: usize,
    pub src_addr: IpEndpoint,
    pub dst_addr: IpEndpoint,
}

impl WayUdpSession {
    /// The application's end of a UDP session.
    pub open spec fn of_session(m: StackModel, key: SessionKey) -> WayUdpSession {
        WayUdpSession {
            interface: key.interface,
            key,
            socket: m.udp[key].socket,
            queue: m.udp[key].queue,
            src_addr: key.src,
            dst_addr: key.dst,
        }
    }

    pub fn new(
        interface: InterfaceId,
        key: SessionKey,
        socket: SocketHandle,
        queue: usize,
        src_addr: IpEndpoint,
        dst_addr: IpEndpoint,
    ) -> (session: WayUdpSession)
        ensures
            session == (WayUdpSession { interface, key, socket, queue, src_addr, dst_addr }),
    {
        WayUdpSession { interface, key, socket, queue, src_addr, dst_addr }
    }

    /// The address of the local application this session belongs to.
    pub fn src_addr(&self) -> (addr: IpEndpoint)
        ensures
            addr == self.src_addr,
    {
        self.src_addr
    }

    /// The destination address the application originally wanted to reach.
    pub fn dst_addr(&self) -> (addr: IpEndpoint)
        ensures
            addr == self.dst_addr,
    {
        self.dst_addr
    }

    /// The interface the session was received on.
    pub fn interface_id(&self) -> (id: InterfaceId)
        ensures
            id == self.interface,
    {
        self.interface
    }

    /// The socket of the session.
    pub open spec fn socket_id(self) -> SocketId {
        SocketId { interface: self.interface, handle: self.socket }
    }

    /// The session is over: its queue is closed.
    pub open spec fn is_over(self, m: StackModel) -> bool {
        !m.queues.contains_key(self.queue) || m.queues[self.queue].closed
    }

    /// Unless the session is over or the interface is gone, the socket is there.
    pub open spec fn attached(self, m: StackModel) -> bool {
        !self.is_over(m) && m.has_interface(self.interface) ==> m.sockets.contains_key(
            self.socket_id(),
        ) && m.sockets[self.socket_id()] is Udp
    }

    /// What the socket holds.
    pub open spec fn content(self, m: StackModel) -> UdpModel {
        m.sockets[self.socket_id()]->Udp_0
    }

    /// The session is the application's end of what the stack knows: its queue is
    /// there, and it is open only while the stack has the session.
    pub open spec fn holds(self, m: StackModel) -> bool {
        &&& self.interface == self.key.interface
        &&& m.queues.contains_key(self.queue)
        &&& !m.queues[self.queue].closed ==> {
            &&& m.udp.contains_key(self.key)
            &&& m.udp[self.key].queue == self.queue
            &&& m.udp[self.key].socket == self.socket
        }
    }

    /// No other session has the queue.
    pub open spec fn owns_queue(self, m: StackModel) -> bool {
        forall|k: SessionKey| #[trigger] m.is_queue_of(k, self.queue) ==> k == self.key
    }

    /// Receives the next datagram the application sent.
    pub fn recv(&self, core: &mut Core) -> (outcome: RecvOutcome)
        requires
            old(core).wf(),
        ensures
            final(core).wf(),
            ({
                let m = old(core)@;
                let pending = m.queues[self.queue].pending;
                match outcome {
                    RecvOutcome::Datagram(data) => {
                        &&& m.queues.contains_key(self.queue)
                        &&& pending.len() > 0
                        &&& octets(data) == pending[0]
                        &&& final(core)@ == m.with_queue(
                            self.queue,
                            QueueModel { pending: pending.skip(1), ..m.queues[self.queue] },
                        )
                    },
                    RecvOutcome::Closed => {
                        &&& self.is_over(m)
                        &&& m.queues.contains_key(self.queue) ==> pending.len() == 0
                        &&& final(core)@ == m
                    },
                    RecvOutcome::Empty => {
                        &&& !self.is_over(m)
                        &&& pending.len() == 0
                        &&& final(core)@ == m
                    },
                }
            }),
    {
        let ghost m = core@;
        let queue = match core.manager.queues.get_mut(self.queue) {
            Some(queue) => queue,
            None => {
                assert(core@ =~= m);
                return RecvOutcome::Closed;
            },
        };
        let data = queue.pop();
        let closed: bool = queue.is_closed();
        proof {
            assert(core@ =~= m.with_queue(self.queue, core@.queues[self.queue]));
            lemma_with_queue(m, self.queue, core@.queues[self.queue]);
            assert(m.with_queue(self.queue, m.queues[self.queue]) =~= m);
        }
        match data {
            Some(data) => RecvOutcome::Datagram(data),
            None => {
                if closed {
                    RecvOutcome::Closed
                } else {
                    RecvOutcome::Empty
                }
            },
        }
    }

    /// Tries once to deliver a datagram to the application. It is emitted with the
    /// session's destination as its source address. A datagram that is sent keeps the
    /// session from being reclaimed.
    pub fn send(&self, core: &mut Core, payload: &Bytes, now: i64) -> (outcome: SendOutcome)
        requires
            old(core).wf(),
            self.attached(old(core)@),
            now >= 0,
        ensures
            final(core).wf(),
            self.attempted(old(core)@, final(core)@, octets(*payload), self.key.src, now, outcome),
    {
        self.try_send(core, payload, self.key.src, now)
    }

    /// The stack has this very session, and not another one of the same flow.
    pub open spec fn is_current(self, m: StackModel) -> bool {
        m.udp.contains_key(self.key) && m.udp[self.key].queue == self.queue
    }

    /// The state in which the session was last active `now`.
    pub open spec fn active(self, m: StackModel, now: i64) -> StackModel {
        if self.is_current(m) {
            StackModel {
                udp: m.udp.insert(self.key, UdpEntry { last_activity: now, ..m.udp[self.key] }),
                ..m
            }
        } else {
            m
        }
    }

    /// How an attempt to send `data` to `target` ends, and what it changes.
    pub open spec fn attempted(
        self,
        a: StackModel,
        b: StackModel,
        data: Seq<u8>,
        target: IpEndpoint,
        now: i64,
        outcome: SendOutcome,
    ) -> bool {
        if self.is_over(a) {
            outcome matches SendOutcome::Failed(e) && e is UdpNotOpen && b == a
        } else if !a.has_interface(self.interface) {
            outcome matches SendOutcome::Failed(NetstackError::Internal(why)) && why@
                == "interface is gone"@ && b == a
        } else {
            let before = self.content(a);
            let after = self.content(b);
            let queued = a.with_socket(self.socket_id(), SocketModel::Udp(after));
            &&& match outcome {
                SendOutcome::Sent => before.addressable(target) && before.has_room(data.len()),
                SendOutcome::Full => before.addressable(target) && !before.has_room(data.len()),
                SendOutcome::Failed(e) => e is UdpNotOpen && !before.addressable(target),
            }
            &&& b == if outcome is Sent {
                self.active(queued, now)
            } else {
                queued
            }
            &&& after.local == before.local
            &&& after.rx_packets == before.rx_packets
            &&& after.tx_packets == before.tx_packets
            &&& outcome is Sent ==> after.tx.len() <= after.tx_packets
            &&& after.rx == before.rx
            &&& after.tx == if outcome is Sent {
                before.tx.push(Datagram { peer: target, data })
            } else {
                before.tx
            }
        }
    }

    /// Tries once to send a datagram to `target`.
    fn try_send(&self, core: &mut Core, payload: &Bytes, target: IpEndpoint, now: i64) -> (outcome:
        SendOutcome)
        requires
            old(core).wf(),
            self.attached(old(core)@),
            now >= 0,
        ensures
            final(core).wf(),
            self.attempted(old(core)@, final(core)@, octets(*payload), target, now, outcome),
    {
        let ghost m = core@;
        let over: bool = match core.manager.queues.get_mut(self.queue) {
            Some(queue) => queue.is_closed(),
            None => true,
        };
        assert(core@.queues =~= m.queues);
        assert(core@ =~= m);
        if over {
            return SendOutcome::Failed(NetstackError::UdpNotOpen);
        }
        let slot: usize = match core.slot_index(self.interface) {
            Some(slot) => slot,
            None => {
                return SendOutcome::Failed(
                    NetstackError::Internal("interface is gone".to_string()),
                );
            },
        };
        let socket = core.udp_socket_mut(slot, self.socket);
        let result = udp_socket::send_slice(socket, payload::as_slice(payload), target);
        let ghost sent = core@;
        proof {
            lemma_with_socket(m, self.socket_id(), core@.sockets[self.socket_id()]);
        }
        match result {
            Ok(()) => {
                if let Some(entry) = core.manager.udp.get_mut(&self.key) {
                    if entry.queue == self.queue {
                        entry.last_activity = now;
                    }
                }
                proof {
                    assert(core@.udp =~= self.active(sent, now).udp);
                    assert(core@ =~= self.active(sent, now));
                    if self.is_current(sent) {
                        lemma_with_udp_activity(sent, self.key, now);
                    }
                }
                SendOutcome::Sent
            },
            Err(UdpSendError::BufferFull) => SendOutcome::Full,
            Err(UdpSendError::Unaddressable) => SendOutcome::Failed(NetstackError::UdpNotOpen),
        }
    }

    /// The state after the application has let go of the session: if the stack has it
    /// still, it is over; and its queue is gone.
    pub open spec fn after_drop(self, m: StackModel) -> StackModel {
        let removed = if self.is_current(m) {
            m.without_udp(self.key)
        } else {
            m
        };
        StackModel { queues: removed.queues.remove(self.queue), ..removed }
    }

    /// Lets go of the session.
    pub fn dropped(&self, core: &mut Core)
        requires
            old(core).wf(),
            self.owns_queue(old(core)@),
        ensures
            final(core).wf(),
            final(core)@ == self.after_drop(old(core)@),
    {
        let ghost m = core@;
        let current: bool = match core.manager.get_udp(&self.key) {
            Some(entry) => entry.queue == self.queue,
            None => false,
        };
        if current {
            let _ = remove_udp(core, &self.key);
        }
        let ghost removed = core@;
        core.manager.queues.remove(self.queue);
        proof {
            assert(core@ =~= self.after_drop(m));
            assert forall|k: SessionKey| !removed.is_queue_of(k, self.queue) by {
                if removed.is_queue_of(k, self.queue) {
                    assert(m.is_queue_of(k, self.queue));
                }
            }
            lemma_without_queue(removed, self.queue);
        }
    }
}

} // verus!
