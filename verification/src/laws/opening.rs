//! What holds of the opening of sessions.

use smoltcp::iface::SocketHandle;
use vstd::prelude::*;

use crate::addr::IpEndpoint;
use crate::admission::{
    opened_by, pre_passed, queued, udp_accepted, Admission, Gate, Refusal, Refused, Verdict,
};
use crate::builder::NetstackConfig;
use crate::engine::socket_set::SocketModel;
use crate::engine::tcp_socket::TcpPhase;
use crate::flow::{flow_of, L4};
use crate::model::{SocketId, StackModel};
use crate::runner::pre::Opening;
use crate::session::types::{Destination, Proto, SessionKey};
use crate::session::Session;
use crate::InterfaceId;

verus! {

// ---- what decides --------------------------------------------------------------

/// What decides is what the stack has: its sessions of either protocol, the destinations
/// that have a UDP socket, those that a TCP connection leads to that is not over, and the
/// account of buffer bytes.
pub proof fn the_state_decides(m: StackModel, dest: Destination)
    ensures
        Gate::of(m).tcp == m.tcp.dom(),
        Gate::of(m).udp == m.udp.dom(),
        Gate::of(m).shared == m.shared.dom(),
        Gate::of(m).buffer_bytes == m.buffer_bytes,
        Gate::of(m).occupied.contains(dest) <==> exists|k: SessionKey| #[trigger]
            m.tcp.contains_key(k) && k.interface == dest.interface && k.dst == dest.dst
                && !(m.tcp[k].state is Closed),
{
    if m.occupied(dest) {
        let k = choose|k: SessionKey| m.connects(k, dest);
        assert(m.tcp.contains_key(k));
    }
    if exists|k: SessionKey| #[trigger]
        m.tcp.contains_key(k) && k.interface == dest.interface && k.dst == dest.dst && !(
        m.tcp[k].state is Closed) {
        let k = choose|k: SessionKey| #[trigger]
            m.tcp.contains_key(k) && k.interface == dest.interface && k.dst == dest.dst && !(
            m.tcp[k].state is Closed);
        assert(m.connects(k, dest));
    }
}

/// Two sessions have the same destination exactly where they are on the same interface and
/// lead to the same endpoint, wherever they come from.
pub proof fn destinations_are_endpoints_on_interfaces(a: SessionKey, b: SessionKey)
    ensures
        a.destination() == b.destination() <==> a.interface == b.interface && a.dst == b.dst,
{
}

/// A datagram leads to a session for its flow exactly where there is one already, or there
/// are fewer UDP sessions than may be, and its destination has a socket or the budget
/// allows for one; so one that comes again is served as soon as they do. How many TCP
/// connections there are does not matter.
pub proof fn a_datagram_is_served_as_soon_as_the_limits_allow(
    gate: Gate,
    config: NetstackConfig,
    key: SessionKey,
)
    requires
        key.proto == Proto::Udp,
        key.dst.port != 0,
    ensures
        ({
            let flow = Some((key.src, key.dst, L4::Udp));
            let verdict = gate.verdict(config, key.interface, flow);
            gate.after(config, verdict).udp.contains(key) <==> gate.udp.contains(key) || {
                &&& gate.udp.len() < config.udp_max_sessions
                &&& gate.shared.contains(
                    Destination { interface: key.interface, dst: key.dst },
                ) || config.admits(gate.buffer_bytes + config.udp_cost())
            }
        }),
{
}

/// A SYN for a new flow that is not served is refused for the first of these that holds:
/// there are as many connections as may be; there is one to its destination; the buffers
/// would exceed the budget; it is for port zero.
pub proof fn refused_syns_are_told_why(gate: Gate, config: NetstackConfig, key: SessionKey)
    requires
        key.proto == Proto::Tcp,
    ensures
        ({
            let verdict = gate.verdict(
                config,
                key.interface,
                Some((key.src, key.dst, L4::Tcp { syn: true })),
            );
            let dest = Destination { interface: key.interface, dst: key.dst };
            let limited = gate.tcp.len() >= config.tcp_max_connections;
            let occupied = gate.occupied.contains(dest);
            let dear = !config.admits(gate.buffer_bytes + config.tcp_cost());
            &&& verdict is Passes <==> gate.tcp.contains(key)
            &&& verdict == Verdict::Opens(key) <==> !gate.tcp.contains(key) && !limited && !occupied
                && !dear && key.dst.port != 0
            &&& verdict matches Verdict::Opens(k) ==> k == key
            &&& verdict matches Verdict::Refuses(r) ==> {
                &&& r.key == key
                &&& r.reason is Limit <==> limited
                &&& r.reason is Occupied <==> !limited && occupied
                &&& r.reason is Budget <==> !limited && !occupied && dear
            }
        }),
{
}

/// A datagram of a new flow that is not served is refused for the first of these that
/// holds: there are as many UDP sessions as may be; the buffers of a socket would exceed
/// the budget; it is for port zero. The last two do not matter where its destination has a
/// socket.
pub proof fn refused_datagrams_are_told_why(gate: Gate, config: NetstackConfig, key: SessionKey)
    requires
        key.proto == Proto::Udp,
    ensures
        ({
            let verdict = gate.verdict(config, key.interface, Some((key.src, key.dst, L4::Udp)));
            let dest = Destination { interface: key.interface, dst: key.dst };
            let limited = gate.udp.len() >= config.udp_max_sessions;
            let shared = gate.shared.contains(dest);
            let dear = !config.admits(gate.buffer_bytes + config.udp_cost());
            &&& verdict is Passes <==> gate.udp.contains(key)
            &&& verdict is Opens <==> !gate.udp.contains(key) && !limited && (shared || !dear
                && key.dst.port != 0)
            &&& verdict matches Verdict::Opens(k) ==> k == key
            &&& verdict matches Verdict::Refuses(r) ==> {
                &&& r.key == key
                &&& r.reason is Limit <==> limited
                &&& r.reason is Budget <==> !limited && dear
                &&& !(r.reason is Occupied)
            }
        }),
{
}

/// A session is opened for the flow of the packet on the interface that it came in on, and
/// for no other; opening one of either protocol leaves the sessions of the other alone;
/// and it is charged for its buffers, which a UDP session is where its destination had no
/// socket.
pub proof fn opening_a_session_adds_that_one(
    gate: Gate,
    config: NetstackConfig,
    interface: InterfaceId,
    src: IpEndpoint,
    dst: IpEndpoint,
    l4: L4,
)
    ensures
        ({
            let verdict = gate.verdict(config, interface, Some((src, dst, l4)));
            let after = gate.after(config, verdict);
            let dest = Destination { interface, dst };
            let udp = SessionKey { interface, proto: Proto::Udp, src, dst };
            let tcp = SessionKey { interface, proto: Proto::Tcp, src, dst };
            match l4 {
                L4::Tcp { syn } => {
                    &&& after.udp == gate.udp && after.shared == gate.shared
                    &&& !syn ==> after == gate
                    &&& if after.tcp == gate.tcp {
                        after.buffer_bytes == gate.buffer_bytes && after.occupied == gate.occupied
                    } else {
                        &&& after.tcp == gate.tcp.insert(tcp)
                        &&& after.occupied == gate.occupied.insert(dest)
                        &&& after.buffer_bytes == gate.buffer_bytes + 2 * config.tcp_buffer_size
                    }
                },
                L4::Udp => {
                    &&& after.tcp == gate.tcp && after.occupied == gate.occupied
                    &&& if after.udp == gate.udp {
                        after.buffer_bytes == gate.buffer_bytes && after.shared == gate.shared
                    } else {
                        &&& after.udp == gate.udp.insert(udp)
                        &&& after.shared == gate.shared.insert(dest)
                        &&& after.buffer_bytes == gate.buffer_bytes + if gate.shared.contains(
                            dest,
                        ) {
                            0
                        } else {
                            config.udp_cost()
                        }
                    }
                },
            }
        }),
{
    let verdict = gate.verdict(config, interface, Some((src, dst, l4)));
    if let Verdict::Opens(key) = verdict {
        assert(gate.tcp.insert(key).contains(key));
        assert(gate.udp.insert(key).contains(key));
    }
}

// ---- many packets --------------------------------------------------------------

/// The packets are looked at one after the other, each with what the ones before it have
/// made of the state: looking at some and then at others is looking at all of them.
pub proof fn packets_are_looked_at_one_after_the_other(
    admission: Admission,
    config: NetstackConfig,
    first: Seq<(InterfaceId, Seq<u8>)>,
    second: Seq<(InterfaceId, Seq<u8>)>,
    interface: InterfaceId,
    packet: Seq<u8>,
)
    ensures
        admission.after_all(config, Seq::empty()) == admission,
        admission.after_all(config, seq![(interface, packet)]) == admission.after(
            config,
            interface,
            packet,
        ),
        admission.after_all(config, first + second) == admission.after_all(
            config,
            first,
        ).after_all(config, second),
    decreases second.len(),
{
    let one = seq![(interface, packet)];
    assert(one.drop_last() =~= Seq::empty());
    assert(admission.after_all(config, one.drop_last()) == admission);
    assert(one.last() == (interface, packet));
    if second.len() > 0 {
        packets_are_looked_at_one_after_the_other(
            admission,
            config,
            first,
            second.drop_last(),
            interface,
            packet,
        );
        assert((first + second).drop_last() =~= first + second.drop_last());
        assert((first + second).last() == second.last());
    } else {
        assert(first + second =~= first);
    }
}

/// Of a packet, this is told: the session that it opens, if it is a UDP session; that it
/// is refused, and why. The engine gets to see it, unless it is a SYN that the number of
/// connections or the budget keeps out.
pub proof fn each_packet_is_accounted_for(
    admission: Admission,
    config: NetstackConfig,
    interface: InterfaceId,
    packet: Seq<u8>,
)
    ensures
        ({
            let verdict = admission.gate.verdict(config, interface, flow_of(packet));
            let after = admission.after(config, interface, packet);
            let kept_out = verdict is Refuses && verdict->Refuses_0.key.proto == Proto::Tcp && (
            verdict->Refuses_0.reason == Refusal::Limit || verdict->Refuses_0.reason
                == Refusal::Budget);
            &&& after.gate == admission.gate.after(config, verdict)
            &&& after.left == if kept_out {
                admission.left
            } else {
                admission.left.push((interface, packet))
            }
            &&& verdict matches Verdict::Refuses(r) ==> after.refused == admission.refused.push(r)
            &&& !(verdict is Refuses) ==> after.refused == admission.refused
            &&& after.opened == if verdict is Opens && verdict->Opens_0.proto == Proto::Udp {
                admission.opened.push(verdict->Opens_0)
            } else {
                admission.opened
            }
        }),
{
}

/// A packet of no flow is left to the engine, and comes to nothing.
pub proof fn packets_of_no_flow_pass(gate: Gate, config: NetstackConfig, interface: InterfaceId)
    ensures
        gate.verdict(config, interface, None) is Passes,
        gate.after(config, Verdict::Passes) == gate,
{
}

/// Exactly the SYNs that the number of connections or the budget keeps out are kept from
/// the engine.
pub proof fn only_early_syns_are_withheld(refused: Refused)
    ensures
        refused.withheld() <==> refused.key.proto == Proto::Tcp && (refused.reason == Refusal::Limit
            || refused.reason == Refusal::Budget),
{
}

/// A look at the queued packets starts from the state as it is, looks at all of them, and
/// leaves what the engine is to see of them.
pub proof fn a_look_covers_all_packets(
    a: StackModel,
    b: StackModel,
    now: i64,
    admission: Admission,
)
    requires
        pre_passed(a, b, now, admission),
    ensures
        admission == (Admission {
            gate: Gate::of(a),
            opened: Seq::empty(),
            left: Seq::empty(),
            refused: Seq::empty(),
        }).after_all(a.config, queued(a.links)),
        Gate::of(b) == admission.gate,
        queued(b.links) == admission.left,
        b.links.len() == a.links.len(),
        forall|i: int|
            0 <= i < a.links.len() ==> {
                &&& (#[trigger] b.links[i]).id == a.links[i].id
                &&& b.links[i].iface == a.links[i].iface
                &&& b.links[i].device.mtu == a.links[i].device.mtu
                &&& b.links[i].device.egress == a.links[i].device.egress
            },
{
}

// ---- what is opened ------------------------------------------------------------

/// Opening sessions leaves all there was: sessions, sockets with what they hold, queues
/// with what they hold, and the configuration. A queue that is new is that of a session. What
/// decides about the next packet is what the verdicts have made of it.
pub proof fn opening_keeps_all_there_was(
    a: StackModel,
    b: StackModel,
    now: i64,
    gate: Gate,
    key: SessionKey,
    socket: SocketId,
    queue: usize,
    dest: Destination,
)
    requires
        opened_by(a, b, now, gate),
    ensures
        b.config == a.config,
        Gate::of(b) == gate,
        a.tcp.contains_key(key) ==> b.tcp.contains_key(key) && b.tcp[key] == a.tcp[key],
        a.udp.contains_key(key) ==> b.udp.contains_key(key) && b.udp[key] == a.udp[key],
        a.sockets.contains_key(socket) ==> b.sockets.contains_key(socket) && b.sockets[socket]
            == a.sockets[socket],
        a.queues.contains_key(queue) ==> b.queues.contains_key(queue) && b.queues[queue]
            == a.queues[queue],
        a.shared.contains_key(dest) ==> b.shared.contains_key(dest) && b.shared[dest].handle
            == a.shared[dest].handle,
        b.queues.contains_key(queue) && !a.queues.contains_key(queue) ==> exists|k: SessionKey|
            #[trigger] b.udp.contains_key(k) && b.udp[k].queue == queue,
{
    if b.queues.contains_key(queue) && !a.queues.contains_key(queue) {
        let k = choose|k: SessionKey| b.is_queue_of(k, queue);
        assert(b.udp.contains_key(k));
    }
}

/// A TCP session that is opened waits for its handshake on an empty socket of the
/// configured size that listens at the very destination of the SYN.
pub proof fn opened_tcp_sessions_listen_at_their_destination(
    a: StackModel,
    b: StackModel,
    now: i64,
    gate: Gate,
    key: SessionKey,
)
    requires
        opened_by(a, b, now, gate),
        b.tcp.contains_key(key),
        !a.tcp.contains_key(key),
    ensures
        b.tcp[key].state is Pending,
        !b.tcp[key].orphaned,
        b.sockets[SocketId { interface: key.interface, handle: b.tcp[key].handle }] matches
            SocketModel::Tcp(t) && {
            &&& t.phase == TcpPhase::Listen
            &&& t.listening.addr == Some(key.dst.addr)
            &&& t.listening.port == key.dst.port
            &&& t.rx.len() == 0
            &&& !t.rx_fin
            &&& t.tx.len() == 0
            &&& t.tx_capacity == b.config.tcp_buffer_size
        },
{
}

/// A UDP session that is opened has a queue to itself, open and empty, and is active now.
/// Its socket is bound to its very destination; one that is new is empty and has room for
/// what is configured.
pub proof fn opened_udp_sessions_are_bound_to_their_destination(
    a: StackModel,
    b: StackModel,
    now: i64,
    gate: Gate,
    key: SessionKey,
)
    requires
        b.wf(),
        opened_by(a, b, now, gate),
        b.udp.contains_key(key),
        !a.udp.contains_key(key),
    ensures
        b.udp[key].last_activity == now,
        !a.queues.contains_key(b.udp[key].queue),
        b.queues[b.udp[key].queue].pending.len() == 0,
        !b.queues[b.udp[key].queue].closed,
        b.sockets[SocketId { interface: key.interface, handle: b.udp[key].socket }] matches
            SocketModel::Udp(u) && {
            &&& u.local.addr == Some(key.dst.addr)
            &&& u.local.port == key.dst.port
            &&& !a.shared.contains_key(key.destination()) ==> {
                &&& u.rx.len() == 0
                &&& u.tx.len() == 0
                &&& u.rx_packets == b.config.udp_packets()
                &&& u.tx_packets == b.config.udp_packets()
                &&& u.tx_room == Some(b.config.udp_bytes())
            }
        },
{
    assert(b.shared.contains_key(key.destination()));
    assert(b.shared_socket(key.destination()) == SocketId {
        interface: key.interface,
        handle: b.udp[key].socket,
    });
}

/// Allocating a TCP session adds the session and its socket, and nothing else.
pub proof fn allocating_a_tcp_session(m: StackModel, key: SessionKey, handle: SocketHandle)
    ensures
        ({
            let b = m.with_tcp(key, handle);
            let id = SocketId { interface: key.interface, handle };
            &&& b == (StackModel {
                tcp: b.tcp,
                sockets: b.sockets,
                buffer_bytes: b.buffer_bytes,
                ..m
            })
            &&& b.tcp == m.tcp.insert(key, b.tcp[key])
            &&& b.tcp[key].handle == handle
            &&& b.tcp[key].state is Pending
            &&& !b.tcp[key].orphaned
            &&& b.sockets == m.sockets.insert(id, b.sockets[id])
            &&& b.sockets[id] matches SocketModel::Tcp(t) && {
                &&& t.phase == TcpPhase::Listen
                &&& t.listening.addr == Some(key.dst.addr)
                &&& t.listening.port == key.dst.port
                &&& t.rx.len() == 0
                &&& t.tx.len() == 0
                &&& t.tx_capacity == m.config.tcp_buffer_size
            }
            &&& b.buffer_bytes == m.buffer_bytes + 2 * m.config.tcp_buffer_size
        }),
{
    let b = m.with_tcp(key, handle);
    let id = SocketId { interface: key.interface, handle };
    assert(b.tcp =~= m.tcp.insert(key, b.tcp[key]));
    assert(b.sockets =~= m.sockets.insert(id, b.sockets[id]));
}

/// Allocating a UDP session adds the session and its queue, counts it on the socket of its
/// destination, and adds the socket where there is none; and nothing else.
pub proof fn allocating_a_udp_session(
    m: StackModel,
    key: SessionKey,
    handle: SocketHandle,
    queue: usize,
    now: i64,
)
    requires
        m.shared.contains_key(key.destination()) ==> m.shared[key.destination()].count < usize::MAX,
    ensures
        ({
            let b = m.with_udp(key, handle, queue, now);
            let dest = Destination { interface: key.interface, dst: key.dst };
            let id = SocketId { interface: key.interface, handle };
            let fresh = !m.shared.contains_key(dest);
            &&& b == (StackModel {
                udp: b.udp,
                shared: b.shared,
                sockets: b.sockets,
                queues: b.queues,
                buffer_bytes: b.buffer_bytes,
                ..m
            })
            &&& b.udp == m.udp.insert(key, b.udp[key])
            &&& b.udp[key].socket == handle
            &&& b.udp[key].queue == queue
            &&& b.udp[key].last_activity == now
            &&& b.queues == m.queues.insert(queue, b.queues[queue])
            &&& b.queues[queue].pending.len() == 0
            &&& !b.queues[queue].closed
            &&& b.shared == m.shared.insert(dest, b.shared[dest])
            &&& b.shared[dest].handle == handle
            &&& fresh ==> b.shared[dest].count == 1 && b.sockets == m.sockets.insert(
                id,
                b.sockets[id],
            ) && b.buffer_bytes == m.buffer_bytes + m.config.udp_cost()
            &&& !fresh ==> b.shared[dest].count == m.shared[dest].count + 1 && b.sockets
                == m.sockets && b.buffer_bytes == m.buffer_bytes
            &&& fresh ==> (b.sockets[id] matches SocketModel::Udp(u) && {
                &&& u.local.addr == Some(key.dst.addr)
                &&& u.local.port == key.dst.port
                &&& u.rx.len() == 0
                &&& u.tx.len() == 0
            })
        }),
{
    let b = m.with_udp(key, handle, queue, now);
    let dest = Destination { interface: key.interface, dst: key.dst };
    let id = SocketId { interface: key.interface, handle };
    assert(b.udp =~= m.udp.insert(key, b.udp[key]));
    assert(b.queues =~= m.queues.insert(queue, b.queues[queue]));
    assert(b.shared =~= m.shared.insert(dest, b.shared[dest]));
    assert(!m.shared.contains_key(dest) ==> b.sockets =~= m.sockets.insert(id, b.sockets[id]));
}

/// The sessions that are handed over tell the flows that they were opened for, in the order
/// in which they were: who sent the datagram, where to, and on which interface.
pub proof fn accepted_udp_sessions_tell_their_flows(
    m: StackModel,
    opened: Seq<SessionKey>,
    i: int,
)
    requires
        0 <= i < opened.len(),
    ensures
        udp_accepted(m, opened).len() == opened.len(),
        udp_accepted(m, opened)[i] matches Session::Udp(s) && {
            &&& s.key == opened[i]
            &&& s.interface == opened[i].interface
            &&& s.src_addr == opened[i].src
            &&& s.dst_addr == opened[i].dst
            &&& s.socket == m.udp[opened[i]].socket
            &&& s.queue == m.udp[opened[i]].queue
        },
{
}

/// What came of a packet is told as it was decided: a UDP session is handed over with the
/// flow that it is for, a TCP session is not yet, and a refusal comes with its reason.
pub proof fn openings_follow_verdicts(opening: Opening, verdict: Verdict, after: StackModel)
    requires
        opening.follows(verdict, after),
    ensures
        opening is Unneeded <==> verdict is Passes,
        opening is Tcp <==> verdict is Opens && verdict->Opens_0.proto == Proto::Tcp,
        opening is Udp <==> verdict is Opens && verdict->Opens_0.proto == Proto::Udp,
        opening matches Opening::Refused(r) ==> verdict == Verdict::Refuses(r),
        opening matches Opening::Udp(session) ==> {
            let key = verdict->Opens_0;
            session matches Session::Udp(s) && {
                &&& s.key == key
                &&& s.interface == key.interface
                &&& s.src_addr == key.src
                &&& s.dst_addr == key.dst
                &&& s.socket == after.udp[key].socket
                &&& s.queue == after.udp[key].queue
            }
        },
{
}

} // verus!
