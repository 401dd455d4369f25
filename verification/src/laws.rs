//! What holds of the stack as a whole.

use smoltcp::iface::SocketHandle;
use vstd::prelude::*;

use crate::addr::IpEndpoint;
use crate::admission::{
    a_second_look_opens_nothing, opened_by, pre_passed, queued, Admission, Gate,
};
use crate::engine::clock::distance;
use crate::engine::socket_set::SocketModel;
use crate::engine::tcp_socket::{LocalEndpoint, TcpPhase};
use crate::engine::udp_socket::Datagram;
use crate::model::{engine_step, SocketId, StackModel};
use crate::model::delivery::{lemma_delivered, lemma_delivered_queue, routed};
use crate::model::round::{lemma_advanced, next_state};
use crate::model::tcp::lemma_without_tcp_sessions;
use crate::session::manager::{QueueModel, TcpState};
use crate::session::types::{Destination, SessionKey};
use crate::stream::tcp::WayTcpStream;
use crate::stream::udp::{SendOutcome, WayUdpSession};

pub mod ends;
pub mod opening;
pub mod packets;
pub mod rounds;
pub mod setup;

verus! {

// ---- memory --------------------------------------------------------------------

/// The receive and send buffers of all sockets together never take more than the
/// configured cap.
pub proof fn buffers_stay_within_the_cap(m: StackModel, limit: usize)
    requires
        m.wf(),
        m.config.max_buffer_bytes == Some(limit),
    ensures
        m.tcp.len() * m.config.tcp_cost() + m.shared.len() * m.config.udp_cost() <= limit,
{
}

/// Opening a TCP session and reclaiming it leaves everything as it was, the account
/// of buffer bytes too.
pub proof fn reclaiming_a_tcp_session_undoes_its_opening(
    m: StackModel,
    key: SessionKey,
    handle: SocketHandle,
)
    requires
        m.wf(),
        !m.tcp.contains_key(key),
        !m.sockets.contains_key(SocketId { interface: key.interface, handle }),
    ensures
        m.with_tcp(key, handle).without_tcp(key) == m,
{
    let back = m.with_tcp(key, handle).without_tcp(key);
    assert(back.tcp =~= m.tcp);
    assert(back.sockets =~= m.sockets);
}

/// Opening a UDP session and dropping it leaves everything as it was, the account of
/// buffer bytes too.
pub proof fn dropping_a_udp_session_undoes_its_opening(
    m: StackModel,
    key: SessionKey,
    handle: SocketHandle,
    queue: usize,
    now: i64,
)
    requires
        m.wf(),
        !m.udp.contains_key(key),
        m.udp.len() < usize::MAX,
        !m.queues.contains_key(queue),
        m.shared.contains_key(key.destination()) ==> handle == m.shared[key.destination()].handle,
        !m.shared.contains_key(key.destination()) ==> !m.sockets.contains_key(
            SocketId { interface: key.interface, handle },
        ),
    ensures
        ({
            let opened = m.with_udp(key, handle, queue, now);
            WayUdpSession::of_session(opened, key).after_drop(opened) == m
        }),
{
    let opened = m.with_udp(key, handle, queue, now);
    let dest = key.destination();
    if m.shared.contains_key(dest) {
        vstd::set_lib::lemma_len_subset(m.users(dest), m.udp.dom());
    }
    let back = WayUdpSession::of_session(opened, key).after_drop(opened);
    assert(opened.shared_socket(dest) == SocketId { interface: key.interface, handle });
    assert(back.udp =~= m.udp);
    assert(back.shared =~= m.shared);
    assert(back.sockets =~= m.sockets);
    assert(back.queues =~= m.queues);
}

/// No socket is left behind: each belongs to a TCP session, or to the destination of
/// a UDP session.
pub proof fn no_socket_is_left_behind(m: StackModel, socket: SocketId)
    requires
        m.wf(),
        m.sockets.contains_key(socket),
    ensures
        (exists|k: SessionKey| m.tcp.contains_key(k) && #[trigger] m.tcp_socket(k) == socket) || (
        exists|k: SessionKey|
            m.udp.contains_key(k) && #[trigger] m.shared_socket(k.destination()) == socket),
{
    assert(m.owned(socket));
    if !(exists|k: SessionKey| m.tcp.contains_key(k) && #[trigger] m.tcp_socket(k) == socket) {
        let d = choose|d: Destination|
            m.shared.contains_key(d) && #[trigger] m.shared_socket(d) == socket;
        a_shared_socket_counts_its_sessions(m, d);
        let k = choose|k: SessionKey| #[trigger] m.udp.contains_key(k) && k.destination() == d;
        assert(m.shared_socket(k.destination()) == socket);
    }
}

/// The socket of a destination never holds more datagrams than are configured, be they
/// received and not yet taken, or waiting to be sent.
pub proof fn udp_sockets_hold_no_more_than_configured(m: StackModel, dest: Destination)
    requires
        m.wf(),
        m.shared.contains_key(dest),
    ensures
        m.received(dest).len() <= m.config.udp_packets(),
        m.sockets[m.shared_socket(dest)]->Udp_0.tx.len() <= m.config.udp_packets(),
{
}

// ---- shared UDP sockets --------------------------------------------------------

/// Two UDP sessions of an interface share a socket exactly where they have the same
/// destination.
pub proof fn sessions_share_a_socket_by_destination(m: StackModel, a: SessionKey, b: SessionKey)
    requires
        m.wf(),
        m.udp.contains_key(a),
        m.udp.contains_key(b),
        a.interface == b.interface,
    ensures
        m.udp[a].socket == m.udp[b].socket <==> a.dst == b.dst,
{
    if m.udp[a].socket == m.udp[b].socket {
        assert(m.shared_socket(a.destination()) == m.shared_socket(b.destination()));
    }
}

/// The socket of a destination counts exactly the sessions that share it, and is
/// there only while there are some.
pub proof fn a_shared_socket_counts_its_sessions(m: StackModel, dest: Destination)
    requires
        m.wf(),
    ensures
        m.shared.contains_key(dest) <==> exists|k: SessionKey| #[trigger]
            m.udp.contains_key(k) && k.destination() == dest,
        m.shared.contains_key(dest) ==> m.shared[dest].count == m.users(dest).len(),
{
    if m.shared.contains_key(dest) {
        let k = m.users(dest).choose();
        assert(m.users(dest).contains(k)) by {
            if m.users(dest) =~= Set::empty() {
                assert(m.users(dest).len() == 0);
            }
        }
        assert(m.udp.contains_key(k) && k.destination() == dest);
    }
}

// ---- delivery ------------------------------------------------------------------

/// Something is routed to an endpoint exactly where something came from it.
proof fn lemma_routed(rx: Seq<Datagram>, src: IpEndpoint)
    ensures
        routed(rx, src).len() > 0 <==> exists|i: int| 0 <= i < rx.len() && (#[trigger] rx[i]).peer
            == src,
    decreases rx.len(),
{
    if rx.len() > 0 {
        lemma_routed(rx.drop_last(), src);
        if rx.last().peer == src {
            assert(rx[rx.len() - 1].peer == src);
        } else if exists|i: int| 0 <= i < rx.len() && (#[trigger] rx[i]).peer == src {
            let i = choose|i: int| 0 <= i < rx.len() && (#[trigger] rx[i]).peer == src;
            assert(rx.drop_last()[i].peer == src);
        } else {
            assert forall|i: int| 0 <= i < rx.drop_last().len() implies (
            #[trigger] rx.drop_last()[i]).peer != src by {
                assert(rx[i].peer != src);
            }
        }
        if exists|i: int| 0 <= i < rx.drop_last().len() && (#[trigger] rx.drop_last()[i]).peer
            == src {
            let i = choose|i: int|
                0 <= i < rx.drop_last().len() && (#[trigger] rx.drop_last()[i]).peer == src;
            assert(rx[i].peer == src);
        }
    }
}

/// The state between the reclaiming of TCP sessions and the delivery of datagrams.
spec fn reaped(m: StackModel) -> StackModel {
    let moved = m.advanced();
    moved.without_tcp_sessions(moved.reapable())
}

/// Reclaiming TCP sessions leaves UDP sessions and their sockets alone.
proof fn lemma_reaped(m: StackModel)
    requires
        m.wf(),
    ensures
        reaped(m).udp == m.udp,
        reaped(m).shared == m.shared,
        reaped(m).queues == m.queues,
        reaped(m).config == m.config,
        forall|d: Destination| #[trigger]
            m.shared.contains_key(d) ==> reaped(m).received(d) == m.received(d)
                && reaped(m).sockets.contains_key(m.shared_socket(d))
                && reaped(m).sockets[m.shared_socket(d)] == m.sockets[m.shared_socket(d)],
{
    let moved = m.advanced();
    let gone = moved.reapable().map(|k: SessionKey| moved.tcp_socket(k));
    assert forall|d: Destination| #[trigger] m.shared.contains_key(d) implies !gone.contains(
        m.shared_socket(d),
    ) by {
        if gone.contains(m.shared_socket(d)) {
            let k = choose|k: SessionKey|
                moved.reapable().contains(k) && moved.tcp_socket(k) == m.shared_socket(d);
            assert(m.tcp.contains_key(k));
            assert(moved.tcp_socket(k) == m.tcp_socket(k));
        }
    }
    assert(forall|d: Destination| #[trigger] reaped(m).shared_socket(d) == m.shared_socket(d));
}

/// In a round, every datagram that has come from the source of a session for its
/// destination goes to the queue of that session, behind what is there, in the order
/// in which they came; and nothing else does. So it is whether or not the session is
/// then reclaimed.
pub proof fn datagrams_reach_the_session_of_their_flow(m: StackModel, now: i64, key: SessionKey)
    requires
        m.wf(),
        now >= 0,
        m.udp.contains_key(key),
    ensures
        m.settled(now).queues.contains_key(m.udp[key].queue),
        m.settled(now).queues[m.udp[key].queue].pending == m.queues[m.udp[key].queue].pending
            + routed(m.received(key.destination()), key.src),
{
    let r = reaped(m);
    let all = |d: Destination| r.received(d).len();
    let q = m.udp[key].queue;
    lemma_reaped(m);
    lemma_reaped_wf(m);
    lemma_delivered_queue(r, all, now, key);
    let rx = r.received(key.destination());
    assert(rx.take(rx.len() as int) =~= rx);
    let delivered = r.all_delivered(now);
    assert(delivered.queues.contains_key(q));
}

proof fn lemma_reaped_wf(m: StackModel)
    requires
        m.wf(),
    ensures
        reaped(m).wf(),
{
    lemma_advanced(m);
    lemma_without_tcp_sessions(m.advanced(), m.advanced().reapable());
}

/// After a round, no datagram is left in a UDP socket.
pub proof fn a_round_empties_the_udp_sockets(m: StackModel, now: i64, dest: Destination)
    requires
        m.wf(),
        now >= 0,
        m.settled(now).shared.contains_key(dest),
    ensures
        m.settled(now).received(dest).len() == 0,
{
    let r = reaped(m);
    let delivered = r.all_delivered(now);
    let gone = delivered.expired(now);
    let after = m.settled(now);
    lemma_reaped(m);
    lemma_reaped_wf(m);
    lemma_delivered(r, |d: Destination| r.received(d).len(), now);
    assert(delivered.shared.contains_key(dest));
    assert(after.shared_socket(dest) == delivered.shared_socket(dest));
    assert(!delivered.abandoned(gone).map(|d: Destination| delivered.shared_socket(d)).contains(
        delivered.shared_socket(dest),
    )) by {
        if delivered.abandoned(gone).map(|d: Destination| delivered.shared_socket(d)).contains(
            delivered.shared_socket(dest),
        ) {
            let d = choose|d: Destination|
                delivered.abandoned(gone).contains(d) && delivered.shared_socket(d)
                    == delivered.shared_socket(dest);
            assert(delivered.shared.contains_key(d));
        }
    }
    assert(delivered.received(dest).len() == 0);
}

/// A round reclaims exactly the UDP sessions that nothing has come for, and whose
/// last activity lies back longer than the timeout. The queues of those are closed,
/// and those of the others stay open.
pub proof fn silent_sessions_are_reclaimed(m: StackModel, now: i64, key: SessionKey)
    requires
        m.wf(),
        now >= 0,
        m.udp.contains_key(key),
    ensures
        ({
            let silent = routed(m.received(key.destination()), key.src).len() == 0 && distance(
                now as int,
                m.udp[key].last_activity as int,
            ) > m.config.udp_timeout();
            &&& m.settled(now).udp.contains_key(key) <==> !silent
            &&& m.settled(now).queues[m.udp[key].queue].closed <==> silent
        }),
{
    let r = reaped(m);
    let all = |d: Destination| r.received(d).len();
    let q = m.udp[key].queue;
    lemma_reaped(m);
    lemma_reaped_wf(m);
    lemma_delivered_queue(r, all, now, key);
    let rx = r.received(key.destination());
    assert(rx.take(rx.len() as int) =~= rx);
    let delivered = r.all_delivered(now);
    let gone = delivered.expired(now);
    assert(delivered.udp.contains_key(key));
    assert(delivered.udp[key].queue == q);
    assert(gone.contains(key) <==> distance(now as int, delivered.udp[key].last_activity as int)
        > m.config.udp_timeout());
    if delivered.queue_of_one(gone, q) {
        let k = choose|k: SessionKey| #[trigger] gone.contains(k) && delivered.udp[k].queue == q;
        assert(r.udp[k].queue == r.udp[key].queue);
        assert(k == key);
    }
    if gone.contains(key) {
        assert(delivered.queue_of_one(gone, q));
    }
}

/// A session that something has come for in a round outlives the round.
pub proof fn sessions_with_traffic_stay(m: StackModel, now: i64, key: SessionKey, i: int)
    requires
        m.wf(),
        now >= 0,
        m.udp.contains_key(key),
        0 <= i < m.received(key.destination()).len(),
        m.received(key.destination())[i].peer == key.src,
    ensures
        m.settled(now).udp.contains_key(key),
{
    lemma_routed(m.received(key.destination()), key.src);
    silent_sessions_are_reclaimed(m, now, key);
}

/// A round opens no session: those that there are after it were there before.
pub proof fn a_round_opens_no_session(m: StackModel, now: i64)
    requires
        m.wf(),
    ensures
        m.settled(now).tcp.dom().subset_of(m.tcp.dom()),
        m.settled(now).udp.dom().subset_of(m.udp.dom()),
        m.settled(now).shared.dom().subset_of(m.shared.dom()),
        m.settled(now).sockets.dom().subset_of(m.sockets.dom()),
{
}

// ---- the life of TCP sessions --------------------------------------------------

/// How far a TCP session has come.
pub open spec fn stage(state: TcpState) -> int {
    match state {
        TcpState::Pending => 0,
        TcpState::Established => 1,
        TcpState::Closed => 2,
    }
}

/// A TCP session never goes back: it waits, is established, and is over. It stops
/// waiting, and is handed over, as soon as its handshake is complete, however far the
/// connection has come by then.
pub proof fn tcp_sessions_never_go_back(state: TcpState, phase: TcpPhase)
    ensures
        stage(next_state(state, phase)) >= stage(state),
        stage(next_state(state, phase)) <= stage(state) + 1,
        state is Pending ==> (next_state(state, phase) is Established
            <==> phase.handshake_complete()),
{
}

/// The stack never removes a TCP socket while the stream exists: a round keeps the
/// session and the socket, with all it holds.
pub proof fn a_round_keeps_the_sockets_of_streams(m: StackModel, now: i64, stream: WayTcpStream)
    requires
        m.wf(),
        now >= 0,
        stream.holds(m),
    ensures
        stream.holds(m.settled(now)),
        stream.attached(m.settled(now)),
        stream.content(m.settled(now)) == stream.content(m),
{
    let moved = m.advanced();
    let r = reaped(m);
    let delivered = r.all_delivered(now);
    let key = stream.key;
    let socket = m.tcp_socket(key);
    lemma_advanced(m);
    lemma_reaped(m);
    lemma_reaped_wf(m);
    lemma_delivered(r, |d: Destination| r.received(d).len(), now);
    assert(socket == stream.socket());
    assert(moved.tcp_socket(key) == socket);
    assert(!moved.reapable().contains(key));
    let gone = moved.reapable().map(|k: SessionKey| moved.tcp_socket(k));
    assert(!gone.contains(socket)) by {
        if gone.contains(socket) {
            let k = choose|k: SessionKey|
                moved.reapable().contains(k) && moved.tcp_socket(k) == socket;
            assert(moved.tcp.contains_key(k) && moved.tcp.contains_key(key));
            assert(moved.tcp_socket(k) == moved.tcp_socket(key));
        }
    }
    assert(r.sockets[socket] == m.sockets[socket]);
    assert(delivered.sockets[socket] == m.sockets[socket]);
    let expired = delivered.expired(now);
    let lost = delivered.abandoned(expired).map(|d: Destination| delivered.shared_socket(d));
    assert(!lost.contains(socket)) by {
        if lost.contains(socket) {
            let d = choose|d: Destination|
                delivered.abandoned(expired).contains(d) && delivered.shared_socket(d) == socket;
            assert(delivered.shared.contains_key(d));
        }
    }
}

/// A stream that the application has let go of is reclaimed in the first round in
/// which its connection is fully closed, and not before.
pub proof fn dropped_streams_are_reclaimed_when_closed(m: StackModel, now: i64, key: SessionKey)
    requires
        m.wf(),
        m.tcp.contains_key(key),
    ensures
        m.settled(now).tcp.contains_key(key) <==> !(m.tcp[key].orphaned && m.phase(key) is Closed),
{
    assert(m.advanced().phase(key) == m.phase(key));
}

// ---- streams and sessions that the application holds ---------------------------

/// A session that is handed over is the application's end of what the stack knows,
/// and its queue is that of no session handed over before.
pub proof fn opened_sessions_hold(
    a: StackModel,
    b: StackModel,
    now: i64,
    gate: Gate,
    key: SessionKey,
    other: WayUdpSession,
)
    requires
        b.wf(),
        opened_by(a, b, now, gate),
        b.udp.contains_key(key),
        !a.udp.contains_key(key),
    ensures
        WayUdpSession::of_session(b, key).holds(b),
        other.holds(a) ==> WayUdpSession::of_session(b, key).queue != other.queue,
{
}

/// A stream that is handed over is the application's end of what the stack knows.
pub proof fn established_streams_hold(m: StackModel, key: SessionKey)
    requires
        m.wf(),
        m.tcp.contains_key(key),
        !m.tcp[key].orphaned,
    ensures
        WayTcpStream::of_session(m, key).holds(m),
{
}

/// As long as a stream holds, it can be read, written, shut down and dropped.
pub proof fn streams_that_hold_can_be_used(m: StackModel, stream: WayTcpStream)
    requires
        m.wf(),
        stream.holds(m),
    ensures
        stream.attached(m),
        m.has_interface(stream.interface),
{
    assert(m.tcp_socket(stream.key) == stream.socket());
}

/// As long as a session holds, it can be sent to and dropped.
pub proof fn sessions_that_hold_can_be_used(m: StackModel, session: WayUdpSession)
    requires
        m.wf(),
        session.holds(m),
    ensures
        session.attached(m),
        session.owns_queue(m),
        !session.is_over(m) ==> m.has_interface(session.interface),
{
    if m.udp.contains_key(session.key) {
        assert(m.shared_socket(session.key.destination()) == SocketId {
            interface: session.interface,
            handle: m.udp[session.key].socket,
        });
    }
    assert forall|k: SessionKey| #[trigger] m.is_queue_of(k, session.queue) implies k
        == session.key by {
        assert(!m.queues[session.queue].closed);
        assert(m.udp[k].queue == m.udp[session.key].queue);
    }
}

/// Reading, writing, sending and receiving leave streams and sessions usable: they
/// change what a socket holds, what a queue holds, or when a session was last active.
pub proof fn using_a_session_leaves_others_alone(
    m: StackModel,
    socket: SocketId,
    content: SocketModel,
    queue: usize,
    pending: Seq<Seq<u8>>,
    sender: WayUdpSession,
    now: i64,
    stream: WayTcpStream,
    session: WayUdpSession,
)
    ensures
        stream.holds(m) ==> {
            &&& stream.holds(m.with_socket(socket, content))
            &&& stream.holds(m.with_queue(queue, QueueModel { pending, ..m.queues[queue] }))
            &&& stream.holds(sender.active(m, now))
        },
        session.holds(m) ==> {
            &&& session.holds(m.with_socket(socket, content))
            &&& m.queues.contains_key(queue) ==> session.holds(
                m.with_queue(queue, QueueModel { pending, ..m.queues[queue] }),
            )
            &&& session.holds(sender.active(m, now))
        },
{
}

/// What is sent on a session goes to the application, and appears to come from the
/// destination that the application wanted to reach: the socket that carries it is
/// bound there.
pub proof fn replies_appear_to_come_from_the_destination(
    a: StackModel,
    b: StackModel,
    session: WayUdpSession,
    data: Seq<u8>,
    now: i64,
    outcome: SendOutcome,
)
    requires
        a.wf(),
        session.holds(a),
        session.attempted(a, b, data, session.key.src, now, outcome),
        outcome is Sent,
    ensures
        session.content(b).local == LocalEndpoint::at(session.key.dst),
        session.content(b).tx == session.content(a).tx.push(
            Datagram { peer: session.key.src, data },
        ),
{
    sessions_that_hold_can_be_used(a, session);
    assert(a.shared_socket(session.key.destination()) == session.socket_id());
}

/// Opening sessions leaves those that the application holds as they are.
pub proof fn opening_leaves_others_alone(
    a: StackModel,
    b: StackModel,
    now: i64,
    gate: Gate,
    stream: WayTcpStream,
    session: WayUdpSession,
)
    requires
        a.wf(),
        opened_by(a, b, now, gate),
    ensures
        stream.holds(a) ==> stream.holds(b) && stream.content(b) == stream.content(a),
        session.holds(a) ==> session.holds(b) && b.queues[session.queue]
            == a.queues[session.queue],
{
    if stream.holds(a) {
        assert(a.tcp_socket(stream.key) == stream.socket());
    }
}

/// Whatever the engine does, streams and sessions that the application holds stay
/// usable.
pub proof fn the_engine_leaves_sessions_alone(
    a: StackModel,
    b: StackModel,
    stream: WayTcpStream,
    session: WayUdpSession,
)
    requires
        engine_step(a, b),
    ensures
        stream.holds(a) ==> stream.holds(b),
        session.holds(a) ==> session.holds(b) && b.queues[session.queue]
            == a.queues[session.queue],
{
}

/// A round leaves a UDP session usable: it goes on, or it is over, and what was
/// received can still be read.
pub proof fn a_round_keeps_sessions_usable(m: StackModel, now: i64, session: WayUdpSession)
    requires
        m.wf(),
        now >= 0,
        session.holds(m),
    ensures
        session.holds(m.settled(now)),
        m.queues[session.queue].pending.is_prefix_of(
            m.settled(now).queues[session.queue].pending,
        ),
        m.queues[session.queue].closed ==> m.settled(now).queues[session.queue]
            == m.queues[session.queue],
{
    let q = session.queue;
    let after = m.settled(now);
    if !m.queues[q].closed {
        datagrams_reach_the_session_of_their_flow(m, now, session.key);
        silent_sessions_are_reclaimed(m, now, session.key);
    } else {
        let r = reaped(m);
        let delivered = r.all_delivered(now);
        let gone = delivered.expired(now);
        lemma_reaped(m);
        assert forall|k: SessionKey| !r.is_queue_of(k, q) by {}
        if delivered.queue_of_one(gone, q) {
            let k = choose|k: SessionKey| #[trigger]
                gone.contains(k) && delivered.udp[k].queue == q;
            assert(r.is_queue_of(k, q));
        }
        assert(after.queues[q] == m.queues[q]);
    }
}

/// Dropping a stream leaves the others alone.
pub proof fn dropping_a_stream_leaves_others_alone(
    m: StackModel,
    dropped: WayTcpStream,
    stream: WayTcpStream,
    session: WayUdpSession,
)
    requires
        m.wf(),
        dropped.holds(m),
    ensures
        stream.holds(m) && stream.key != dropped.key ==> {
            &&& stream.holds(dropped.after_drop(m))
            &&& stream.content(dropped.after_drop(m)) == stream.content(m)
        },
        session.holds(m) ==> session.holds(dropped.after_drop(m)),
        dropped.after_drop(m).queues == m.queues,
{
    assert(m.tcp_socket(dropped.key) == dropped.socket());
    if stream.holds(m) {
        assert(m.tcp_socket(stream.key) == stream.socket());
    }
}

/// Dropping a UDP session leaves streams and all other sessions alone: those to the same
/// destination, and one that has come up for the same flow since it was reclaimed.
pub proof fn dropping_a_session_leaves_others_alone(
    m: StackModel,
    dropped: WayUdpSession,
    stream: WayTcpStream,
    session: WayUdpSession,
)
    requires
        m.wf(),
        dropped.holds(m),
    ensures
        stream.holds(m) ==> {
            &&& stream.holds(dropped.after_drop(m))
            &&& stream.content(dropped.after_drop(m)) == stream.content(m)
        },
        session.holds(m) && session.queue != dropped.queue ==> {
            &&& session.holds(dropped.after_drop(m))
            &&& dropped.after_drop(m).queues[session.queue] == m.queues[session.queue]
            &&& !session.is_over(m) ==> session.content(dropped.after_drop(m)) == session.content(m)
        },
{
    if stream.holds(m) {
        assert(m.tcp_socket(stream.key) == stream.socket());
    }
    if dropped.is_current(m) {
        let dest = dropped.key.destination();
        if stream.holds(m) {
            assert(m.shared_socket(dest) != stream.socket());
        }
        if session.holds(m) && session.queue != dropped.queue && !session.is_over(m) {
            assert(session.key != dropped.key);
            let other = session.key.destination();
            assert(m.shared_socket(other) == session.socket_id());
            assert(m.users(dest).contains(dropped.key));
            if m.shared_socket(other) == m.shared_socket(dest) {
                assert(other == dest);
                assert(m.users(dest).contains(session.key));
                assert(m.users(dest).remove(dropped.key).contains(session.key));
            }
        }
    }
}

/// A session that something was sent on is not reclaimed before the timeout has passed
/// since.
pub proof fn sessions_that_answered_stay(
    a: StackModel,
    b: StackModel,
    session: WayUdpSession,
    data: Seq<u8>,
    outcome: SendOutcome,
    sent: i64,
    now: i64,
)
    requires
        a.wf(),
        b.wf(),
        session.holds(a),
        session.attempted(a, b, data, session.key.src, sent, outcome),
        outcome is Sent,
        now >= 0,
        distance(now as int, sent as int) <= b.config.udp_timeout(),
    ensures
        b.settled(now).udp.contains_key(session.key),
        !b.settled(now).queues[session.queue].closed,
{
    assert(b.udp[session.key].last_activity == sent);
    silent_sessions_are_reclaimed(b, now, session.key);
}

/// Looking at the queued packets again, before the engine has run, opens nothing: all
/// sessions, sockets, counts and the account of buffer bytes are as the first look left
/// them.
pub proof fn a_second_pass_opens_nothing(
    a: StackModel,
    b: StackModel,
    c: StackModel,
    first: Admission,
    second: Admission,
    earlier: i64,
    later: i64,
)
    requires
        a.wf(),
        b.wf(),
        c.wf(),
        pre_passed(a, b, earlier, first),
        pre_passed(b, c, later, second),
    ensures
        second.opened.len() == 0,
        c == (StackModel { links: c.links, ..b }),
{
    a_second_look_opens_nothing(Gate::of(a), a.config, queued(a.links));
    assert(Admission { gate: first.gate, ..Admission::start(a) } =~= Admission::start(b));
    assert(second.gate == Gate::of(b));
    assert(Gate::of(c) == Gate::of(b));
    assert(c.tcp.dom() == b.tcp.dom()) by {
        assert(Gate::of(c).tcp == Gate::of(b).tcp);
    }
    assert(c.udp.dom() == b.udp.dom()) by {
        assert(Gate::of(c).udp == Gate::of(b).udp);
    }
    assert(c.shared.dom() == b.shared.dom()) by {
        assert(Gate::of(c).shared == Gate::of(b).shared);
    }
    assert(c.tcp =~= b.tcp) by {
        assert forall|k: SessionKey| c.tcp.contains_key(k) implies b.tcp.contains_key(k) by {
            assert(b.tcp.dom().contains(k));
        }
    }
    assert(c.udp =~= b.udp) by {
        assert forall|k: SessionKey| c.udp.contains_key(k) implies b.udp.contains_key(k) by {
            assert(b.udp.dom().contains(k));
        }
    }
    assert forall|d: Destination| c.shared.contains_key(d) implies b.shared.contains_key(d) by {
        assert(b.shared.dom().contains(d));
    }
    assert(forall|d: Destination| #[trigger] c.users(d) == b.users(d));
    assert(c.shared =~= b.shared);
    assert(c.queues =~= b.queues) by {
        assert forall|q: usize| c.queues.contains_key(q) implies b.queues.contains_key(q) by {
            if !b.queues.contains_key(q) {
                let k = choose|k: SessionKey| c.is_queue_of(k, q);
                assert(b.udp.contains_key(k));
            }
        }
    }
    assert(forall|k: SessionKey| #[trigger] c.tcp_socket(k) == b.tcp_socket(k));
    assert(forall|d: Destination| #[trigger] c.shared_socket(d) == b.shared_socket(d));
    assert(c.sockets =~= b.sockets) by {
        assert forall|p: SocketId| c.sockets.contains_key(p) implies b.sockets.contains_key(p) by {
            assert(c.owned(p));
            if exists|k: SessionKey| c.tcp.contains_key(k) && #[trigger] c.tcp_socket(k) == p {
                let k = choose|k: SessionKey|
                    c.tcp.contains_key(k) && #[trigger] c.tcp_socket(k) == p;
                assert(b.tcp.contains_key(k));
                assert(b.tcp_socket(k) == p);
            } else {
                let d = choose|d: Destination|
                    c.shared.contains_key(d) && #[trigger] c.shared_socket(d) == p;
                assert(b.shared.contains_key(d));
                assert(b.shared_socket(d) == p);
            }
        }
    }
    assert(c.buffer_bytes == b.buffer_bytes) by {
        assert(Gate::of(c).buffer_bytes == Gate::of(b).buffer_bytes);
    }
}

} // verus!
