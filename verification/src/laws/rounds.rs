//! What a round does to each session.

use vstd::prelude::*;

use crate::addr::IpEndpoint;
use crate::engine::clock::{distance, whole_micros};
use crate::engine::socket_set::SocketModel;
use crate::engine::tcp_socket::TcpPhase;
use crate::engine::udp_socket::Datagram;
use crate::laws::{
    datagrams_reach_the_session_of_their_flow, lemma_reaped, lemma_reaped_wf, lemma_routed, reaped,
    silent_sessions_are_reclaimed,
};
use crate::model::delivery::{lemma_delivered, routed};
use crate::model::round::{lemma_advanced, next_state};
use crate::model::{SocketId, StackModel};
use crate::runner::post::tcp_accepted;
use crate::session::manager::TcpState;
use crate::session::types::{Destination, SessionKey};
use crate::session::Session;
use crate::table::in_order;

verus! {

// ---- datagrams -----------------------------------------------------------------

/// What is routed to a source is the very contents of the datagrams that came from it, in
/// their order: all of them, all of each, and of no others.
pub proof fn routing_alters_nothing(rx: Seq<Datagram>, src: IpEndpoint, next: Datagram)
    ensures
        routed(rx, src) == rx.filter(|d: Datagram| d.peer == src).map_values(|d: Datagram| d.data),
        routed(rx.push(next), src) == if next.peer == src {
            routed(rx, src).push(next.data)
        } else {
            routed(rx, src)
        },
    decreases rx.len(),
{
    let from = |d: Datagram| d.peer == src;
    let data = |d: Datagram| d.data;
    reveal(Seq::filter);
    assert(rx.push(next).drop_last() =~= rx);
    if rx.len() > 0 {
        let rest = rx.drop_last();
        routing_alters_nothing(rest, src, rx.last());
        if rx.last().peer == src {
            assert(rest.filter(from).push(rx.last()).map_values(data) =~= rest.filter(
                from,
            ).map_values(data).push(rx.last().data));
        }
    } else {
        assert(rx.filter(from).map_values(data) =~= Seq::empty());
    }
}

/// In a round, the queue of a session gets what its socket has received from its source:
/// every such datagram, all its octets, in the order in which they came, behind what is
/// there; and nothing else.
pub proof fn datagrams_arrive_whole_and_in_order(m: StackModel, now: i64, key: SessionKey)
    requires
        m.wf(),
        now >= 0,
        m.udp.contains_key(key),
    ensures
        ({
            let id = SocketId { interface: key.interface, handle: m.udp[key].socket };
            let rx = m.sockets[id]->Udp_0.rx;
            let q = m.udp[key].queue;
            &&& m.settled(now).queues.contains_key(q)
            &&& m.settled(now).queues[q].pending == m.queues[q].pending + rx.filter(
                |d: Datagram| d.peer == key.src,
            ).map_values(|d: Datagram| d.data)
        }),
{
    datagrams_reach_the_session_of_their_flow(m, now, key);
    routing_alters_nothing(
        m.received(key.destination()),
        key.src,
        Datagram { peer: key.src, data: Seq::empty() },
    );
    assert(m.shared.contains_key(key.destination()));
    assert(m.shared_socket(key.destination()) == SocketId {
        interface: key.interface,
        handle: m.udp[key].socket,
    });
}

/// A queue that no session has is left alone by a round.
pub proof fn a_round_leaves_other_queues_alone(m: StackModel, now: i64, queue: usize)
    requires
        m.wf(),
        now >= 0,
        m.queues.contains_key(queue),
        forall|k: SessionKey| #[trigger] m.udp.contains_key(k) ==> m.udp[k].queue != queue,
    ensures
        m.settled(now).queues.contains_key(queue),
        m.settled(now).queues[queue] == m.queues[queue],
{
    let r = reaped(m);
    let delivered = r.all_delivered(now);
    let gone = delivered.expired(now);
    lemma_reaped(m);
    assert forall|k: SessionKey| !r.is_queue_of(k, queue) by {
        assert(m.udp.contains_key(k) ==> m.udp[k].queue != queue);
    }
    if delivered.queue_of_one(gone, queue) {
        let k = choose|k: SessionKey| #[trigger]
            gone.contains(k) && delivered.udp[k].queue == queue;
        assert(r.is_queue_of(k, queue));
    }
}

/// A session that outlives a round has the same socket and the same queue. It was last
/// active now, if something came for it, and else when it was before.
pub proof fn arrivals_count_as_activity(m: StackModel, now: i64, key: SessionKey)
    requires
        m.wf(),
        now >= 0,
        m.udp.contains_key(key),
        m.settled(now).udp.contains_key(key),
    ensures
        ({
            let id = SocketId { interface: key.interface, handle: m.udp[key].socket };
            let rx = m.sockets[id]->Udp_0.rx;
            let after = m.settled(now).udp[key];
            let came = exists|i: int| 0 <= i < rx.len() && (#[trigger] rx[i]).peer == key.src;
            &&& after.socket == m.udp[key].socket
            &&& after.queue == m.udp[key].queue
            &&& after.last_activity == if came {
                now
            } else {
                m.udp[key].last_activity
            }
        }),
{
    let r = reaped(m);
    lemma_reaped(m);
    lemma_reaped_wf(m);
    assert(m.shared.contains_key(key.destination()));
    assert(m.shared_socket(key.destination()) == SocketId {
        interface: key.interface,
        handle: m.udp[key].socket,
    });
    let rx = r.received(key.destination());
    assert(rx.take(rx.len() as int) =~= rx);
    lemma_routed(rx, key.src);
}

/// A round ends exactly the UDP sessions that nothing has come for, and that have been
/// silent for longer than the configured timeout.
pub proof fn the_timeout_ends_silent_sessions(m: StackModel, now: i64, key: SessionKey)
    requires
        m.wf(),
        now >= 0,
        m.udp.contains_key(key),
    ensures
        ({
            let id = SocketId { interface: key.interface, handle: m.udp[key].socket };
            let rx = m.sockets[id]->Udp_0.rx;
            let came = exists|i: int| 0 <= i < rx.len() && (#[trigger] rx[i]).peer == key.src;
            let over = !came && distance(now as int, m.udp[key].last_activity as int)
                > whole_micros(m.config.udp_session_timeout);
            &&& m.settled(now).udp.contains_key(key) <==> !over
            &&& m.settled(now).queues[m.udp[key].queue].closed <==> over
        }),
{
    assert(m.shared.contains_key(key.destination()));
    assert(m.shared_socket(key.destination()) == SocketId {
        interface: key.interface,
        handle: m.udp[key].socket,
    });
    lemma_routed(m.received(key.destination()), key.src);
    silent_sessions_are_reclaimed(m, now, key);
}

/// A session that would outlive a round at some time would outlive one at any earlier time
/// since it was last active.
pub proof fn waiting_longer_ends_more_sessions(
    m: StackModel,
    earlier: i64,
    later: i64,
    key: SessionKey,
)
    requires
        m.wf(),
        m.udp.contains_key(key),
        m.udp[key].last_activity <= earlier <= later,
        m.settled(later).udp.contains_key(key),
    ensures
        m.settled(earlier).udp.contains_key(key),
{
    the_timeout_ends_silent_sessions(m, earlier, key);
    the_timeout_ends_silent_sessions(m, later, key);
}

/// The socket of a destination whose sessions a round does not all end keeps what waits to
/// be sent, where it is bound and what it has room for, and has nothing left that it
/// received.
pub proof fn a_round_takes_what_udp_sockets_received(m: StackModel, now: i64, key: SessionKey)
    requires
        m.wf(),
        now >= 0,
        m.settled(now).udp.contains_key(key),
    ensures
        ({
            let id = SocketId { interface: key.interface, handle: m.udp[key].socket };
            let before = m.sockets[id]->Udp_0;
            m.settled(now).sockets.contains_key(id) && (m.settled(now).sockets[id] matches
                SocketModel::Udp(after) && {
                &&& after.rx.len() == 0
                &&& after.tx == before.tx
                &&& after.tx_room == before.tx_room
                &&& after.local == before.local
                &&& after.rx_packets == before.rx_packets
                &&& after.tx_packets == before.tx_packets
            })
        }),
{
    let r = reaped(m);
    let delivered = r.all_delivered(now);
    let gone = delivered.expired(now);
    let dest = key.destination();
    lemma_reaped(m);
    lemma_reaped_wf(m);
    lemma_delivered(r, |d: Destination| r.received(d).len(), now);
    assert(m.udp.contains_key(key));
    assert(m.shared.contains_key(dest));
    let id = SocketId { interface: key.interface, handle: m.udp[key].socket };
    assert(m.shared_socket(dest) == id);
    assert(delivered.shared_socket(dest) == id);
    assert(delivered.users_left(dest, gone).contains(key));
    assert(delivered.users_left(dest, gone).len() > 0) by {
        vstd::set_lib::lemma_len_subset(delivered.users(dest), delivered.udp.dom());
        vstd::set_lib::lemma_len_subset(
            delivered.users_left(dest, gone),
            delivered.users(dest),
        );
        if delivered.users_left(dest, gone).len() == 0 {
            assert(delivered.users_left(dest, gone) =~= Set::empty());
        }
    }
    let lost = delivered.abandoned(gone).map(|d: Destination| delivered.shared_socket(d));
    assert(!lost.contains(id)) by {
        if lost.contains(id) {
            let d = choose|d: Destination|
                delivered.abandoned(gone).contains(d) && delivered.shared_socket(d) == id;
            assert(delivered.shared.contains_key(d));
            assert(d == dest);
        }
    }
    assert(delivered.received(dest).len() == 0);
}

// ---- TCP -----------------------------------------------------------------------

/// How a TCP session moves on with its connection: it is established as soon as the
/// handshake is complete, however far the connection has come by then; it is over once the
/// connection is closed, waits out, or the socket listens again; and it stays over.
pub proof fn sessions_move_on_with_their_connections(phase: TcpPhase)
    ensures
        next_state(TcpState::Pending, phase) == if phase == TcpPhase::Closed || phase
            == TcpPhase::Listen || phase == TcpPhase::SynSent || phase == TcpPhase::SynReceived {
            TcpState::Pending
        } else {
            TcpState::Established
        },
        next_state(TcpState::Established, phase) == if phase == TcpPhase::Closed || phase
            == TcpPhase::TimeWait || phase == TcpPhase::Listen {
            TcpState::Closed
        } else {
            TcpState::Established
        },
        next_state(TcpState::Closed, phase) == TcpState::Closed,
{
}

/// A round takes out exactly the TCP sessions that the application has let go of and whose
/// connection is fully closed. The others keep their sockets, with all they hold, and have
/// moved on with their connections.
pub proof fn a_round_keeps_tcp_sessions_until_they_are_done(
    m: StackModel,
    now: i64,
    key: SessionKey,
)
    requires
        m.wf(),
        now >= 0,
        m.tcp.contains_key(key),
    ensures
        ({
            let id = SocketId { interface: key.interface, handle: m.tcp[key].handle };
            let phase = m.sockets[id]->Tcp_0.phase;
            let b = m.settled(now);
            &&& b.tcp.contains_key(key) <==> !(m.tcp[key].orphaned && phase == TcpPhase::Closed)
            &&& b.tcp.contains_key(key) ==> {
                &&& b.tcp[key].handle == m.tcp[key].handle
                &&& b.tcp[key].orphaned == m.tcp[key].orphaned
                &&& b.tcp[key].state == next_state(m.tcp[key].state, phase)
                &&& b.sockets.contains_key(id)
                &&& b.sockets[id] == m.sockets[id]
            }
            &&& !b.tcp.contains_key(key) ==> !b.sockets.contains_key(id)
        }),
{
    let moved = m.advanced();
    let r = reaped(m);
    let delivered = r.all_delivered(now);
    let expired = delivered.expired(now);
    let id = SocketId { interface: key.interface, handle: m.tcp[key].handle };
    lemma_advanced(m);
    lemma_reaped(m);
    lemma_reaped_wf(m);
    assert(m.tcp_socket(key) == id);
    assert(moved.tcp_socket(key) == id);
    assert(moved.phase(key) == m.phase(key));
    let gone = moved.reapable().map(|k: SessionKey| moved.tcp_socket(k));
    let lost = delivered.abandoned(expired).map(|d: Destination| delivered.shared_socket(d));
    if moved.reapable().contains(key) {
        assert(gone.contains(id)) by {
            assert(moved.reapable().contains(key) && moved.tcp_socket(key) == id);
        }
    } else {
        assert(!gone.contains(id)) by {
            if gone.contains(id) {
                let k = choose|k: SessionKey|
                    moved.reapable().contains(k) && moved.tcp_socket(k) == id;
                assert(moved.tcp.contains_key(k) && moved.tcp.contains_key(key));
                assert(moved.tcp_socket(k) == moved.tcp_socket(key));
            }
        }
        assert(r.sockets[id] == m.sockets[id]);
        assert(!lost.contains(id)) by {
            if lost.contains(id) {
                let d = choose|d: Destination|
                    delivered.abandoned(expired).contains(d) && delivered.shared_socket(d) == id;
                assert(r.shared.contains_key(d));
                assert(r.shared_socket(d) == id);
                assert(m.sockets[m.shared_socket(d)] is Udp);
            }
        }
    }
}

/// A round leaves the interfaces, their packets and the configuration alone, and neither
/// makes nor loses a queue.
pub proof fn a_round_leaves_interfaces_alone(m: StackModel, now: i64)
    ensures
        m.settled(now).links == m.links,
        m.settled(now).config == m.config,
        m.settled(now).queues.dom() == m.queues.dom(),
{
    assert(m.settled(now).queues.dom() =~= m.queues.dom());
}

/// The TCP sessions that are handed over in a round are those whose handshake has been
/// completed since the last one, each once, in the order in which they are kept; and each
/// tells the flow that it is for: who connects, where to, and on which interface.
pub proof fn accepted_tcp_sessions_tell_their_flows(m: StackModel, keys: Seq<SessionKey>)
    ensures
        ({
            let phase = |k: SessionKey|
                m.sockets[SocketId { interface: k.interface, handle: m.tcp[k].handle }]->Tcp_0.phase;
            let due = keys.filter(
                |k: SessionKey|
                    m.tcp.contains_key(k) && m.tcp[k].state is Pending && phase(k)
                        != TcpPhase::Closed && phase(k) != TcpPhase::Listen && phase(k)
                        != TcpPhase::SynSent && phase(k) != TcpPhase::SynReceived,
            );
            &&& tcp_accepted(m, keys).len() == due.len()
            &&& forall|i: int|
                0 <= i < due.len() ==> (#[trigger] tcp_accepted(m, keys)[i] matches Session::Tcp(s)
                    && {
                    &&& s.key == due[i]
                    &&& s.interface == due[i].interface
                    &&& s.src_addr == due[i].src
                    &&& s.dst_addr == due[i].dst
                    &&& s.handle == m.tcp[due[i]].handle
                })
        }),
{
    let phase = |k: SessionKey|
        m.sockets[SocketId { interface: k.interface, handle: m.tcp[k].handle }]->Tcp_0.phase;
    let pred = |k: SessionKey|
        m.tcp.contains_key(k) && m.tcp[k].state is Pending && phase(k) != TcpPhase::Closed && phase(
            k,
        ) != TcpPhase::Listen && phase(k) != TcpPhase::SynSent && phase(k)
            != TcpPhase::SynReceived;
    lemma_in_order_is_filter(keys, m.newly_established(), pred);
}

/// Keeping the keys of a set in order is filtering them.
proof fn lemma_in_order_is_filter(
    keys: Seq<SessionKey>,
    set: Set<SessionKey>,
    pred: spec_fn(SessionKey) -> bool,
)
    requires
        forall|k: SessionKey| set.contains(k) <==> #[trigger] pred(k),
    ensures
        in_order(keys, set) == keys.filter(pred),
    decreases keys.len(),
{
    reveal(Seq::filter);
    if keys.len() > 0 {
        lemma_in_order_is_filter(keys.drop_last(), set, pred);
        assert(pred(keys.last()) == set.contains(keys.last()));
    }
}

} // verus!
