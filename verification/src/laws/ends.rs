//! What holds of the application's ends: streams and sessions.

use vstd::prelude::*;

use crate::engine::socket_set::SocketModel;
use crate::engine::tcp_socket::{TcpModel, TcpPhase};
use crate::engine::udp_socket::Datagram;
use crate::error::NetstackError;
use crate::model::udp::lemma_without_udp;
use crate::model::{SocketId, StackModel};
use crate::session::manager::QueueModel;
use crate::session::types::{Destination, SessionKey};
use crate::stream::tcp::{ReadOutcome, WayTcpStream, WriteOutcome};
use crate::stream::udp::{SendOutcome, WayUdpSession};

verus! {

// ---- streams -------------------------------------------------------------------

/// A read gives as much as there is and fits. Where nothing can be read, the stream is at
/// its end if the application has closed its half or the connection is over, and else
/// there may be more later.
pub proof fn reads_give_what_there_is(socket: TcpModel, room: nat)
    requires
        room <= usize::MAX,
    ensures
        match socket.read_outcome(room) {
            ReadOutcome::Data(n) => {
                &&& socket.may_recv()
                &&& n >= 1
                &&& n <= socket.rx.len()
                &&& n <= room
                &&& n == socket.rx.len() || n == room
            },
            ReadOutcome::Eof => !socket.may_recv() && (socket.rx_fin || socket.phase
                == TcpPhase::Closed || socket.phase == TcpPhase::TimeWait),
            ReadOutcome::WouldBlock => if socket.may_recv() {
                socket.rx.len() == 0 || room == 0
            } else {
                !socket.rx_fin && socket.phase != TcpPhase::Closed && socket.phase
                    != TcpPhase::TimeWait
            },
            ReadOutcome::Gone => false,
        },
{
}

/// Nothing that was received is lost, repeated or put in another order by reading it in
/// parts: what a read gives, and what it leaves for later, is what there was; and the
/// socket can be read for as long as something is left.
pub proof fn reading_in_parts_gives_everything(socket: TcpModel, room: nat)
    requires
        0 < room <= usize::MAX,
        socket.rx.len() > 0,
    ensures
        socket.read_outcome(room) is Data,
        ({
            let n = socket.read_outcome(room)->Data_0 as int;
            let left = TcpModel { rx: socket.rx.skip(n), ..socket };
            &&& socket.rx.take(n) + left.rx == socket.rx
            &&& left.rx.len() > 0 ==> left.read_outcome(room) is Data
        }),
{
    let n = socket.read_outcome(room)->Data_0 as int;
    assert(socket.rx.take(n) + socket.rx.skip(n) =~= socket.rx);
}

/// A write takes as much as there is room for. Where nothing can be written, the stream is
/// closed if the connection is over, and else there may be room later.
pub proof fn writes_take_what_fits(socket: TcpModel, n: nat)
    requires
        n <= usize::MAX,
        socket.tx.len() <= socket.tx_capacity <= usize::MAX,
    ensures
        ({
            let room = socket.tx_capacity - socket.tx.len();
            let open = socket.phase == TcpPhase::Established || socket.phase == TcpPhase::CloseWait;
            match socket.write_outcome(n) {
                WriteOutcome::Written(w) => {
                    &&& open
                    &&& w >= 1
                    &&& w <= n
                    &&& w <= room
                    &&& w == n || w == room
                },
                WriteOutcome::Closed => socket.phase == TcpPhase::Closed || socket.phase
                    == TcpPhase::TimeWait,
                WriteOutcome::WouldBlock => if open {
                    n == 0 || room == 0
                } else {
                    socket.phase != TcpPhase::Closed && socket.phase != TcpPhase::TimeWait
                },
                WriteOutcome::Gone => false,
            }
        }),
{
}

/// Another content in a socket is all that changes.
pub proof fn using_a_socket_changes_that_one(
    m: StackModel,
    id: SocketId,
    content: SocketModel,
    queue: usize,
    pending: QueueModel,
)
    ensures
        m.with_socket(id, content).sockets == m.sockets.insert(id, content),
        m.with_socket(id, content) == (StackModel {
            sockets: m.sockets.insert(id, content),
            ..m
        }),
        m.with_queue(queue, pending) == (StackModel {
            queues: m.queues.insert(queue, pending),
            ..m
        }),
{
}

/// What a stream reads and writes is its own socket: the one that the stack has for its
/// session.
pub proof fn a_stream_is_its_socket(m: StackModel, stream: WayTcpStream, key: SessionKey)
    ensures
        stream.socket().interface == stream.interface,
        stream.socket().handle == stream.handle,
        ({
            let id = SocketId { interface: stream.interface, handle: stream.handle };
            m.sockets[id] is Tcp ==> m.sockets[id] == SocketModel::Tcp(stream.content(m))
        }),
        ({
            let s = WayTcpStream::of_session(m, key);
            &&& s.key == key
            &&& s.interface == key.interface
            &&& s.src_addr == key.src
            &&& s.dst_addr == key.dst
            &&& s.handle == m.tcp[key].handle
        }),
{
}

/// Shutting down a stream closes the sending half in every phase in which it is open, so
/// that the application sees the end of the stream: an established connection waits for
/// that to be acknowledged, and one that the application has closed already is on its last
/// step. All else stays: what was received, what is still to be sent, all other sockets,
/// and the sessions. Where the interface is gone, nothing changes.
pub proof fn shutting_down_closes_the_sending_half(m: StackModel, stream: WayTcpStream)
    requires
        stream.attached(m),
    ensures
        ({
            let id = SocketId { interface: stream.interface, handle: stream.handle };
            let before = m.sockets[id]->Tcp_0;
            let b = stream.after_shutdown(m);
            &&& !m.has_interface(stream.interface) ==> b == m
            &&& m.has_interface(stream.interface) ==> {
                &&& b == (StackModel { sockets: b.sockets, ..m })
                &&& b.sockets == m.sockets.insert(id, b.sockets[id])
                &&& b.sockets[id] matches SocketModel::Tcp(after) && {
                    &&& after == (TcpModel { phase: after.phase, ..before })
                    &&& after.phase == match before.phase {
                        TcpPhase::SynReceived | TcpPhase::Established => TcpPhase::FinWait1,
                        TcpPhase::CloseWait => TcpPhase::LastAck,
                        TcpPhase::Listen | TcpPhase::SynSent => TcpPhase::Closed,
                        _ => before.phase,
                    }
                    &&& after.phase == before.phase.after_close()
                    &&& !after.may_send()
                }
            }
        }),
{
    let id = SocketId { interface: stream.interface, handle: stream.handle };
    assert(stream.socket() == id);
    let b = stream.after_shutdown(m);
    if m.has_interface(stream.interface) {
        assert(b.sockets =~= m.sockets.insert(id, b.sockets[id]));
    }
}

/// Dropping a stream shuts it down, and has the session reclaimed once the connection is
/// fully closed. All other sessions, and all other sockets, stay as they are.
pub proof fn dropping_a_stream_shuts_it_down(m: StackModel, stream: WayTcpStream)
    requires
        stream.attached(m),
        m.tcp.contains_key(stream.key),
    ensures
        ({
            let b = stream.after_drop(m);
            let id = SocketId { interface: stream.interface, handle: stream.handle };
            &&& b == (StackModel { sockets: b.sockets, tcp: b.tcp, ..m })
            &&& b.sockets == stream.after_shutdown(m).sockets
            &&& m.has_interface(stream.interface) ==> b.sockets[id] is Tcp
                && b.sockets[id]->Tcp_0.phase == m.sockets[id]->Tcp_0.phase.after_close()
            &&& b.tcp == m.tcp.insert(stream.key, b.tcp[stream.key])
            &&& b.tcp[stream.key].orphaned
            &&& b.tcp[stream.key].handle == m.tcp[stream.key].handle
            &&& b.tcp[stream.key].state == m.tcp[stream.key].state
        }),
{
    shutting_down_closes_the_sending_half(m, stream);
    let b = stream.after_drop(m);
    assert(b.tcp =~= m.tcp.insert(stream.key, b.tcp[stream.key]));
}

/// Shutting down twice is shutting down once, and dropping a stream that has been shut down
/// closes nothing further.
pub proof fn shutting_down_again_changes_nothing(m: StackModel, stream: WayTcpStream)
    requires
        m.wf(),
        stream.holds(m),
    ensures
        stream.after_shutdown(stream.after_shutdown(m)) == stream.after_shutdown(m),
        stream.after_drop(stream.after_shutdown(m)) == stream.after_drop(m),
{
    let id = SocketId { interface: stream.interface, handle: stream.handle };
    let once = stream.after_shutdown(m);
    assert(m.tcp_socket(stream.key) == id);
    shutting_down_closes_the_sending_half(m, stream);
    assert(once.links == m.links);
    let twice = stream.after_shutdown(once);
    assert(twice.sockets =~= once.sockets);
    assert(twice =~= once);
    assert(stream.after_drop(once) =~= stream.after_drop(m));
}

/// A stream that the stack does not know any more cannot change anything by being dropped.
pub proof fn dropping_an_unknown_stream_changes_nothing(m: StackModel, stream: WayTcpStream)
    requires
        !m.tcp.contains_key(stream.key),
    ensures
        stream.after_drop(m) == m,
{
}

// ---- sessions ------------------------------------------------------------------

/// A session is over exactly where its queue is gone or closed.
pub proof fn a_session_is_over_when_its_queue_is_closed(m: StackModel, session: WayUdpSession)
    ensures
        session.is_over(m) <==> !m.queues.contains_key(session.queue)
            || m.queues[session.queue].closed,
{
}

/// The application's end of a UDP session is that of its flow, with the socket and the queue
/// that the stack has for it.
pub proof fn a_session_is_its_socket_and_queue(
    m: StackModel,
    session: WayUdpSession,
    key: SessionKey,
)
    ensures
        ({
            let id = SocketId { interface: session.interface, handle: session.socket };
            m.sockets[id] is Udp ==> m.sockets[id] == SocketModel::Udp(session.content(m))
        }),
        session.socket_id().interface == session.interface,
        session.socket_id().handle == session.socket,
        ({
            let s = WayUdpSession::of_session(m, key);
            &&& s.key == key
            &&& s.interface == key.interface
            &&& s.src_addr == key.src
            &&& s.dst_addr == key.dst
            &&& s.socket == m.udp[key].socket
            &&& s.queue == m.udp[key].queue
        }),
{
}

/// What is sent on a session goes whole to the socket of the session, behind what waits
/// there, addressed to the application; the session counts as active then, if the stack
/// has it; and nothing else changes.
pub proof fn a_reply_is_queued_whole(
    a: StackModel,
    b: StackModel,
    session: WayUdpSession,
    data: Seq<u8>,
    now: i64,
    outcome: SendOutcome,
)
    requires
        session.attempted(a, b, data, session.key.src, now, outcome),
        outcome is Sent,
    ensures
        ({
            let id = SocketId { interface: session.interface, handle: session.socket };
            let key = session.key;
            let before = a.sockets[id]->Udp_0;
            let current = a.udp.contains_key(key) && a.udp[key].queue == session.queue;
            &&& a.queues.contains_key(session.queue) && !a.queues[session.queue].closed
            &&& a.has_interface(session.interface)
            &&& b == (StackModel { sockets: b.sockets, udp: b.udp, ..a })
            &&& b.sockets == a.sockets.insert(id, b.sockets[id])
            &&& b.sockets[id] matches SocketModel::Udp(after) && {
                &&& after.tx == before.tx.push(Datagram { peer: key.src, data })
                &&& after.tx.len() <= after.tx_packets
                &&& after.rx == before.rx
                &&& after.local == before.local
                &&& after.rx_packets == before.rx_packets
                &&& after.tx_packets == before.tx_packets
            }
            &&& !current ==> b.udp == a.udp
            &&& current ==> {
                &&& b.udp == a.udp.insert(key, b.udp[key])
                &&& b.udp[key].last_activity == now
                &&& b.udp[key].socket == a.udp[key].socket
                &&& b.udp[key].queue == a.udp[key].queue
            }
        }),
{
    let id = SocketId { interface: session.interface, handle: session.socket };
    assert(b.sockets =~= a.sockets.insert(id, b.sockets[id]));
    assert(session.is_current(a) ==> b.udp =~= a.udp.insert(session.key, b.udp[session.key]));
}

/// What cannot be sent changes nothing but what the socket has room for: it is left out,
/// not cut. It fails where the session is over, where the interface is gone, and where the
/// application cannot be addressed; it has to wait where there is no room.
pub proof fn what_cannot_be_sent_is_left_out(
    a: StackModel,
    b: StackModel,
    session: WayUdpSession,
    data: Seq<u8>,
    now: i64,
    outcome: SendOutcome,
)
    requires
        session.attempted(a, b, data, session.key.src, now, outcome),
    ensures
        ({
            let id = SocketId { interface: session.interface, handle: session.socket };
            let before = a.sockets[id]->Udp_0;
            let over = !a.queues.contains_key(session.queue) || a.queues[session.queue].closed;
            let gone = !a.has_interface(session.interface);
            let nowhere = before.local.port == 0 || session.key.src.port == 0
                || session.key.src.addr.is_unspecified();
            let room = before.tx_room matches Some(n) && data.len() <= n;
            &&& outcome is Sent <==> !over && !gone && !nowhere && room
            &&& outcome is Full <==> !over && !gone && !nowhere && !room
            &&& outcome matches SendOutcome::Failed(e) ==> {
                &&& over || gone || nowhere
                &&& over || !gone ==> e == NetstackError::UdpNotOpen
                &&& !over && gone ==> (e matches NetstackError::Internal(why) && why@
                    == "interface is gone"@)
            }
            &&& over || gone ==> b == a
            &&& !over && !gone && !(outcome is Sent) ==> {
                &&& b == (StackModel { sockets: b.sockets, ..a })
                &&& b.sockets == a.sockets.insert(id, b.sockets[id])
                &&& b.sockets[id] matches SocketModel::Udp(after) && after.tx == before.tx
                    && after.rx == before.rx && after.local == before.local
            }
        }),
{
    let id = SocketId { interface: session.interface, handle: session.socket };
    if !session.is_over(a) && a.has_interface(session.interface) && !(outcome is Sent) {
        assert(b.sockets =~= a.sockets.insert(id, b.sockets[id]));
    }
}

/// A session that the stack has not, because it was reclaimed or another one has come up for
/// its flow, is not noted as active.
pub proof fn only_current_sessions_become_active(
    m: StackModel,
    session: WayUdpSession,
    now: i64,
    key: SessionKey,
)
    ensures
        session.active(m, now) == (StackModel { udp: session.active(m, now).udp, ..m }),
        session.active(m, now).udp.dom() == m.udp.dom(),
        m.udp.contains_key(key) && !(key == session.key && m.udp[key].queue == session.queue)
            ==> session.active(m, now).udp[key] == m.udp[key],
{
    assert(session.active(m, now).udp.dom() =~= m.udp.dom());
}

/// Dropping a session that the stack has ends it: the session and its queue are gone, and
/// its socket too, with what it was charged for, unless another session shares it. Dropping
/// one that the stack has not only takes its queue away. All other sessions, sockets and
/// queues stay as they are.
pub proof fn dropping_a_session_ends_that_one(m: StackModel, session: WayUdpSession)
    requires
        m.wf(),
    ensures
        ({
            let b = session.after_drop(m);
            let key = session.key;
            let dest = Destination { interface: key.interface, dst: key.dst };
            let id = SocketId { interface: key.interface, handle: m.udp[key].socket };
            let current = m.udp.contains_key(key) && m.udp[key].queue == session.queue;
            let shared = exists|k: SessionKey| #[trigger]
                m.udp.contains_key(k) && k != key && k.interface == key.interface && k.dst
                    == key.dst;
            &&& b.tcp == m.tcp && b.links == m.links && b.config == m.config
            &&& b.queues == m.queues.remove(session.queue)
            &&& b.udp == if current {
                m.udp.remove(key)
            } else {
                m.udp
            }
            &&& b.sockets == if current && !shared {
                m.sockets.remove(id)
            } else {
                m.sockets
            }
            &&& b.buffer_bytes == m.buffer_bytes - if current && !shared {
                m.config.udp_cost()
            } else {
                0
            }
            &&& b.shared.contains_key(dest) <==> m.shared.contains_key(dest) && (shared || !current)
            &&& forall|d: Destination|
                d != dest ==> (#[trigger] b.shared.contains_key(d) <==> m.shared.contains_key(d))
        }),
{
    let b = session.after_drop(m);
    let key = session.key;
    let dest = key.destination();
    if session.is_current(m) {
        assert(m.users(dest).contains(key));
        lemma_without_udp(m, key);
        assert(m.shared_socket(dest) == SocketId {
            interface: key.interface,
            handle: m.udp[key].socket,
        });
        assert(b.queues =~= m.queues.remove(session.queue));
        let others = m.users(dest).remove(key);
        if exists|k: SessionKey| #[trigger]
            m.udp.contains_key(k) && k != key && k.interface == key.interface && k.dst == key.dst {
            let k = choose|k: SessionKey| #[trigger]
                m.udp.contains_key(k) && k != key && k.interface == key.interface && k.dst
                    == key.dst;
            assert(others.contains(k));
            assert(m.users(dest).len() >= 2) by {
                vstd::set_lib::lemma_len_subset(m.users(dest), m.udp.dom());
                if others.len() == 0 {
                    assert(others =~= Set::empty());
                }
            }
        } else {
            assert(others =~= Set::empty());
        }
    }
}

} // verus!
