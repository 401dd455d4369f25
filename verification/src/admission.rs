//! Which of the queued packets open sessions.

use smoltcp::iface::SocketHandle;
use vstd::prelude::*;

use crate::addr::IpEndpoint;
use crate::builder::NetstackConfig;
use crate::device::DeviceModel;
use crate::engine::socket_set::SocketModel;
use crate::engine::tcp_socket::TcpModel;
use crate::flow::{flow_of, L4};
use crate::model::{LinkModel, SocketId, StackModel};
use crate::session::manager::QueueModel;
use crate::session::types::{Destination, Proto, SessionKey};
use crate::session::Session;
use crate::stream::udp::WayUdpSession;
use crate::InterfaceId;

verus! {

/// Why a packet that would open a session does not.
#[derive(Debug, Clone, Copy, PartialEq, Eq, Structural)]
pub enum Refusal {
    /// There are as many sessions of the protocol as may be.
    Limit,
    /// There is a TCP connection to the destination already.
    Occupied,
    /// The buffers would exceed the budget.
    Budget,
    /// There is no listening at port zero, and no binding to it.
    PortZero,
}

/// A flow that was not given a session.
#[derive(Debug, Clone, Copy, PartialEq, Eq, Structural)]
pub struct Refused {
    pub key: SessionKey,
    pub reason: Refusal,
}

impl Refused {
    /// The engine is not to see the packet, or it would answer a SYN that came too early
    /// by a reset. A SYN for a destination that is occupied is to be answered so.
    pub open spec fn spec_withheld(self) -> bool {
        self.key.proto is Tcp && (self.reason is Limit || self.reason is Budget)
    }

    /// Whether the engine is not to see the packet.
    #[verifier::when_used_as_spec(spec_withheld)]
    pub fn withheld(self) -> (withheld: bool)
        ensures
            withheld == self.spec_withheld(),
    {
        self.key.proto == Proto::Tcp && (self.reason == Refusal::Limit || self.reason
            == Refusal::Budget)
    }
}

/// What a packet comes to.
pub enum Verdict {
    /// It opens nothing, and is not meant to.
    Passes,
    /// It opens a session.
    Opens(SessionKey),
    /// It would open a session, but may not.
    Refuses(Refused),
}

/// The part of the state that decides which packets open sessions.
#[verifier::ext_equal]
pub struct Gate {
    pub tcp: Set<SessionKey>,
    pub udp: Set<SessionKey>,
    /// The destinations that there is a TCP connection to.
    pub occupied: Set<Destination>,
    /// The destinations that have a UDP socket.
    pub shared: Set<Destination>,
    pub buffer_bytes: nat,
}

impl Gate {
    pub open spec fn of(m: StackModel) -> Gate {
        Gate {
            tcp: m.tcp.dom(),
            udp: m.udp.dom(),
            occupied: Set::new(|d: Destination| m.occupied(d)),
            shared: m.shared.dom(),
            buffer_bytes: m.buffer_bytes,
        }
    }

    /// What a SYN comes to. Concurrent connections to one destination are not supported.
    pub open spec fn tcp_verdict(self, config: NetstackConfig, key: SessionKey) -> Verdict {
        if self.tcp.contains(key) {
            Verdict::Passes
        } else if self.tcp.len() >= config.tcp_max_connections {
            Verdict::Refuses(Refused { key, reason: Refusal::Limit })
        } else if self.occupied.contains(key.destination()) {
            Verdict::Refuses(Refused { key, reason: Refusal::Occupied })
        } else if !config.admits(self.buffer_bytes + config.tcp_cost()) {
            Verdict::Refuses(Refused { key, reason: Refusal::Budget })
        } else if key.dst.port == 0 {
            Verdict::Refuses(Refused { key, reason: Refusal::PortZero })
        } else {
            Verdict::Opens(key)
        }
    }

    /// What a datagram comes to. Where its destination has a socket, nothing is
    /// allocated.
    pub open spec fn udp_verdict(self, config: NetstackConfig, key: SessionKey) -> Verdict {
        if self.udp.contains(key) {
            Verdict::Passes
        } else if self.udp.len() >= config.udp_max_sessions {
            Verdict::Refuses(Refused { key, reason: Refusal::Limit })
        } else if self.shared.contains(key.destination()) {
            Verdict::Opens(key)
        } else if !config.admits(self.buffer_bytes + config.udp_cost()) {
            Verdict::Refuses(Refused { key, reason: Refusal::Budget })
        } else if key.dst.port == 0 {
            Verdict::Refuses(Refused { key, reason: Refusal::PortZero })
        } else {
            Verdict::Opens(key)
        }
    }

    /// What a packet of a flow comes to on an interface.
    pub open spec fn verdict(
        self,
        config: NetstackConfig,
        interface: InterfaceId,
        flow: Option<(IpEndpoint, IpEndpoint, L4)>,
    ) -> Verdict {
        match flow {
            Some((src, dst, L4::Tcp { syn })) => if syn {
                self.tcp_verdict(
                    config,
                    SessionKey { interface, proto: Proto::Tcp, src, dst },
                )
            } else {
                Verdict::Passes
            },
            Some((src, dst, L4::Udp)) => self.udp_verdict(
                config,
                SessionKey { interface, proto: Proto::Udp, src, dst },
            ),
            None => Verdict::Passes,
        }
    }

    pub open spec fn with_tcp(self, config: NetstackConfig, key: SessionKey) -> Gate {
        Gate {
            tcp: self.tcp.insert(key),
            occupied: self.occupied.insert(key.destination()),
            buffer_bytes: self.buffer_bytes + config.tcp_cost(),
            ..self
        }
    }

    pub open spec fn with_udp(self, config: NetstackConfig, key: SessionKey) -> Gate {
        Gate {
            udp: self.udp.insert(key),
            shared: self.shared.insert(key.destination()),
            buffer_bytes: if self.shared.contains(key.destination()) {
                self.buffer_bytes
            } else {
                self.buffer_bytes + config.udp_cost()
            },
            ..self
        }
    }

    /// After a packet has come to something.
    pub open spec fn after(self, config: NetstackConfig, verdict: Verdict) -> Gate {
        match verdict {
            Verdict::Opens(key) => if key.proto is Tcp {
                self.with_tcp(config, key)
            } else {
                self.with_udp(config, key)
            },
            _ => self,
        }
    }
}

/// What a run of packets comes to.
#[verifier::ext_equal]
pub struct Admission {
    pub gate: Gate,
    /// The UDP sessions opened, in the order in which they were.
    pub opened: Seq<SessionKey>,
    /// The packets that the engine is to see, in their order.
    pub left: Seq<(InterfaceId, Seq<u8>)>,
    /// The flows that were not given a session, in the order in which they came.
    pub refused: Seq<Refused>,
}

impl Admission {
    /// Before any packet.
    pub open spec fn start(m: StackModel) -> Admission {
        Admission {
            gate: Gate::of(m),
            opened: Seq::empty(),
            left: Seq::empty(),
            refused: Seq::empty(),
        }
    }

    /// After one more packet.
    pub open spec fn after(
        self,
        config: NetstackConfig,
        interface: InterfaceId,
        packet: Seq<u8>,
    ) -> Admission {
        let verdict = self.gate.verdict(config, interface, flow_of(packet));
        Admission {
            gate: self.gate.after(config, verdict),
            opened: match verdict {
                Verdict::Opens(key) if key.proto is Udp => self.opened.push(key),
                _ => self.opened,
            },
            left: match verdict {
                Verdict::Refuses(refused) if refused.withheld() => self.left,
                _ => self.left.push((interface, packet)),
            },
            refused: match verdict {
                Verdict::Refuses(refused) => self.refused.push(refused),
                _ => self.refused,
            },
        }
    }

    /// After packets, each on its interface.
    pub open spec fn after_all(
        self,
        config: NetstackConfig,
        packets: Seq<(InterfaceId, Seq<u8>)>,
    ) -> Admission
        decreases packets.len(),
    {
        if packets.len() == 0 {
            self
        } else {
            let (interface, packet) = packets.last();
            self.after_all(config, packets.drop_last()).after(config, interface, packet)
        }
    }
}

impl StackModel {
    /// There is a TCP connection to the destination: a session whose connection is not
    /// over.
    pub open spec fn occupied(self, dest: Destination) -> bool {
        exists|k: SessionKey| #[trigger] self.connects(k, dest)
    }

    /// The session is a TCP connection to the destination that is not over.
    pub open spec fn connects(self, key: SessionKey, dest: Destination) -> bool {
        self.tcp.contains_key(key) && !(self.tcp[key].state is Closed) && key.destination() == dest
    }
}

/// The packets that wait on one interface.
pub open spec fn queued_on(link: LinkModel) -> Seq<(InterfaceId, Seq<u8>)> {
    link.device.ingress.map_values(|p: Seq<u8>| (link.id, p))
}

/// The packets that wait, one interface after the other.
pub open spec fn queued(links: Seq<LinkModel>) -> Seq<(InterfaceId, Seq<u8>)>
    decreases links.len(),
{
    if links.len() == 0 {
        Seq::empty()
    } else {
        queued(links.drop_last()) + queued_on(links.last())
    }
}

/// Only packets that wait may differ.
pub open spec fn same_but_ingress(a: Seq<LinkModel>, b: Seq<LinkModel>) -> bool {
    &&& b.len() == a.len()
    &&& forall|i: int|
        0 <= i < a.len() ==> #[trigger] b[i] == a[i].with_queue(b[i].device.ingress)
}

impl LinkModel {
    /// With other packets that wait.
    pub open spec fn with_queue(self, ingress: Seq<Seq<u8>>) -> LinkModel {
        LinkModel { device: DeviceModel { ingress, ..self.device }, ..self }
    }
}

/// All that `a` maps, `b` maps likewise.
pub open spec fn kept<K, V>(a: Map<K, V>, b: Map<K, V>) -> bool {
    forall|k: K| #[trigger] a.contains_key(k) ==> b.contains_key(k) && b[k] == a[k]
}

/// `b` is `a` with the sessions that were opened. New TCP sessions wait for their
/// handshake on a listening socket, new UDP sessions have an empty queue and a socket
/// bound to their destination. All there was is still there.
pub open spec fn opened_by(a: StackModel, b: StackModel, now: i64, gate: Gate) -> bool {
    &&& b.config == a.config
    &&& Gate::of(b) == gate
    &&& kept(a.tcp, b.tcp)
    &&& kept(a.udp, b.udp)
    &&& kept(a.sockets, b.sockets)
    &&& kept(a.queues, b.queues)
    &&& forall|d: Destination| #[trigger]
        a.shared.contains_key(d) ==> b.shared.contains_key(d) && b.shared[d].handle
            == a.shared[d].handle
    &&& forall|k: SessionKey| #[trigger]
        b.tcp.contains_key(k) && !a.tcp.contains_key(k) ==> {
            &&& b.tcp[k].state is Pending
            &&& !b.tcp[k].orphaned
            &&& b.sockets[b.tcp_socket(k)] == SocketModel::Tcp(
                TcpModel::listening_at(k.dst, b.config.tcp_buffer_size as nat),
            )
        }
    &&& forall|k: SessionKey| #[trigger]
        b.udp.contains_key(k) && !a.udp.contains_key(k) ==> {
            &&& b.udp[k].last_activity == now
            &&& !a.queues.contains_key(b.udp[k].queue)
            &&& b.queues[b.udp[k].queue] == (QueueModel { pending: Seq::empty(), closed: false })
        }
    &&& forall|d: Destination| #[trigger]
        b.shared.contains_key(d) && !a.shared.contains_key(d) ==> b.sockets[b.shared_socket(d)]
            == SocketModel::Udp(b.config.udp_socket_at(d.dst))
    &&& forall|q: usize| #[trigger]
        b.queues.contains_key(q) && !a.queues.contains_key(q) ==> exists|k: SessionKey|
            b.is_queue_of(k, q)
}

/// `b` is what a look at the queued packets makes of `a`: the sessions that they open are
/// open, and what the engine is to see of them still waits, on the same interfaces and in
/// the same order.
pub open spec fn pre_passed(
    a: StackModel,
    b: StackModel,
    now: i64,
    admission: Admission,
) -> bool {
    &&& admission == Admission::start(a).after_all(a.config, queued(a.links))
    &&& opened_by(a, b, now, admission.gate)
    &&& same_but_ingress(a.links, b.links)
    &&& queued(b.links) == admission.left
}

/// The application's ends of the UDP sessions that were opened.
pub open spec fn udp_accepted(m: StackModel, opened: Seq<SessionKey>) -> Seq<Session> {
    opened.map_values(|k: SessionKey| Session::Udp(WayUdpSession::of_session(m, k)))
}

pub(crate) proof fn lemma_nothing_opened(m: StackModel, now: i64)
    ensures
        opened_by(m, m, now, Gate::of(m)),
{
}

/// The packets that wait do not matter.
pub(crate) proof fn lemma_opened_links(
    a: StackModel,
    b: StackModel,
    c: StackModel,
    now: i64,
    gate: Gate,
)
    requires
        opened_by(a, b, now, gate),
        c == (StackModel { links: c.links, ..b }),
    ensures
        opened_by(a, c, now, gate),
{
    assert forall|d: Destination| c.occupied(d) == b.occupied(d) by {
        if c.occupied(d) {
            let k = choose|k: SessionKey| c.connects(k, d);
            assert(b.connects(k, d));
        }
        if b.occupied(d) {
            let k = choose|k: SessionKey| b.connects(k, d);
            assert(c.connects(k, d));
        }
    }
    assert(Gate::of(c) =~= Gate::of(b));
    assert(forall|k: SessionKey| #[trigger] c.tcp_socket(k) == b.tcp_socket(k));
    assert(forall|d: Destination| #[trigger] c.shared_socket(d) == b.shared_socket(d));
    assert forall|q: usize| #[trigger]
        c.queues.contains_key(q) && !a.queues.contains_key(q) implies exists|k: SessionKey|
        c.is_queue_of(k, q) by {
        assert(b.queues.contains_key(q));
        let k = choose|k: SessionKey| b.is_queue_of(k, q);
        assert(c.is_queue_of(k, q));
    }
}

pub(crate) proof fn lemma_opened_tcp(
    m: StackModel,
    now: i64,
    key: SessionKey,
    handle: SocketHandle,
)
    requires
        m.wf(),
        !m.tcp.contains_key(key),
        !m.sockets.contains_key(SocketId { interface: key.interface, handle }),
    ensures
        opened_by(m, m.with_tcp(key, handle), now, Gate::of(m).with_tcp(m.config, key)),
{
    let after = m.with_tcp(key, handle);
    assert(after.tcp.dom() =~= m.tcp.dom().insert(key));
    assert forall|d: Destination| after.occupied(d) == (m.occupied(d) || d == key.destination()) by {
        if after.occupied(d) {
            let k = choose|k: SessionKey| after.connects(k, d);
            assert(k != key ==> m.connects(k, d));
        }
        if m.occupied(d) {
            let k = choose|k: SessionKey| m.connects(k, d);
            assert(after.connects(k, d));
        }
        assert(after.connects(key, key.destination()));
    }
    assert(Gate::of(after) =~= Gate::of(m).with_tcp(m.config, key));
}

pub(crate) proof fn lemma_opened_udp(
    m: StackModel,
    now: i64,
    key: SessionKey,
    handle: SocketHandle,
    queue: usize,
)
    requires
        m.wf(),
        !m.udp.contains_key(key),
        !m.queues.contains_key(queue),
        m.shared.contains_key(key.destination()) ==> handle == m.shared[key.destination()].handle,
        !m.shared.contains_key(key.destination()) ==> !m.sockets.contains_key(
            SocketId { interface: key.interface, handle },
        ),
    ensures
        opened_by(
            m,
            m.with_udp(key, handle, queue, now),
            now,
            Gate::of(m).with_udp(m.config, key),
        ),
{
    let after = m.with_udp(key, handle, queue, now);
    assert(after.udp.dom() =~= m.udp.dom().insert(key));
    assert(after.shared.dom() =~= m.shared.dom().insert(key.destination()));
    assert(after.is_queue_of(key, queue));
    assert forall|d: Destination| after.occupied(d) == m.occupied(d) by {
        if after.occupied(d) {
            let k = choose|k: SessionKey| after.connects(k, d);
            assert(m.connects(k, d));
        }
        if m.occupied(d) {
            let k = choose|k: SessionKey| m.connects(k, d);
            assert(after.connects(k, d));
        }
    }
    assert(Gate::of(after) =~= Gate::of(m).with_udp(m.config, key));
}

/// What is opened first and what is opened then is opened.
pub(crate) proof fn lemma_opened_then(
    a: StackModel,
    b: StackModel,
    c: StackModel,
    now: i64,
    first: Gate,
    second: Gate,
)
    requires
        b.wf(),
        opened_by(a, b, now, first),
        opened_by(b, c, now, second),
    ensures
        opened_by(a, c, now, second),
{
    assert forall|k: SessionKey| #[trigger]
        c.tcp.contains_key(k) && !a.tcp.contains_key(k) implies c.tcp[k].state is Pending
        && !c.tcp[k].orphaned && c.sockets[c.tcp_socket(k)] == SocketModel::Tcp(
        TcpModel::listening_at(k.dst, c.config.tcp_buffer_size as nat),
    ) by {
        if b.tcp.contains_key(k) {
            assert(c.tcp_socket(k) == b.tcp_socket(k));
        }
    }
    assert forall|k: SessionKey| #[trigger]
        c.udp.contains_key(k) && !a.udp.contains_key(k) implies c.udp[k].last_activity == now
        && !a.queues.contains_key(c.udp[k].queue) && c.queues[c.udp[k].queue] == (QueueModel {
        pending: Seq::empty(),
        closed: false,
    }) by {
        assert(b.udp.contains_key(k) ==> c.udp[k] == b.udp[k]);
    }
    assert forall|d: Destination| #[trigger]
        c.shared.contains_key(d) && !a.shared.contains_key(d) implies c.sockets[c.shared_socket(d)]
        == SocketModel::Udp(c.config.udp_socket_at(d.dst)) by {
        if b.shared.contains_key(d) {
            assert(c.shared_socket(d) == b.shared_socket(d));
        }
    }
    assert forall|q: usize| #[trigger]
        c.queues.contains_key(q) && !a.queues.contains_key(q) implies exists|k: SessionKey|
        c.is_queue_of(k, q) by {
        if b.queues.contains_key(q) {
            let k = choose|k: SessionKey| b.is_queue_of(k, q);
            assert(c.is_queue_of(k, q));
        }
    }
}

/// The ends of sessions stay the same while the sessions stay.
pub(crate) proof fn lemma_udp_accepted(a: StackModel, b: StackModel, opened: Seq<SessionKey>)
    requires
        kept(a.udp, b.udp),
        forall|k: SessionKey| #[trigger] opened.contains(k) ==> a.udp.contains_key(k),
    ensures
        udp_accepted(b, opened) == udp_accepted(a, opened),
{
    assert forall|i: int| 0 <= i < opened.len() implies udp_accepted(b, opened)[i] == udp_accepted(
        a,
        opened,
    )[i] by {
        assert(opened.contains(opened[i]));
    }
    assert(udp_accepted(b, opened) =~= udp_accepted(a, opened));
}

/// The packets of the first interfaces, and those of the next one.
pub(crate) proof fn lemma_queued(links: Seq<LinkModel>, i: int)
    requires
        0 <= i < links.len(),
    ensures
        queued(links.take(i + 1)) == queued(links.take(i)) + queued_on(links[i]),
{
    assert(links.take(i + 1).drop_last() =~= links.take(i));
}

// ---- what holds of admission ---------------------------------------------------

/// A SYN that acknowledges nothing leads to a session for its flow exactly where there is
/// one already, or the limits and the budget allow for one and there is no connection to
/// its destination; so one that comes again is served as soon as they do.
pub proof fn a_syn_is_served_as_soon_as_the_limits_allow(
    gate: Gate,
    config: NetstackConfig,
    key: SessionKey,
)
    requires
        key.proto == Proto::Tcp,
        key.dst.port != 0,
    ensures
        ({
            let flow = Some((key.src, key.dst, L4::Tcp { syn: true }));
            let verdict = gate.verdict(config, key.interface, flow);
            gate.after(config, verdict).tcp.contains(key) <==> gate.tcp.contains(key) || {
                &&& gate.tcp.len() < config.tcp_max_connections
                &&& !gate.occupied.contains(key.destination())
                &&& config.admits(gate.buffer_bytes + config.tcp_cost())
            }
        }),
{
}

/// A second connection to a destination is refused while the first is not over, and its
/// SYN is left to the engine, which answers it by a reset; unless there are as many
/// connections as may be, where it is withheld.
pub proof fn a_second_connection_to_a_destination_is_refused(
    m: StackModel,
    first: SessionKey,
    second: SessionKey,
)
    requires
        m.tcp.contains_key(first),
        !(m.tcp[first].state is Closed),
        !m.tcp.contains_key(second),
        second.proto == Proto::Tcp,
        second.destination() == first.destination(),
        m.tcp.len() < m.config.tcp_max_connections,
    ensures
        ({
            let flow = Some((second.src, second.dst, L4::Tcp { syn: true }));
            Gate::of(m).verdict(m.config, second.interface, flow) == Verdict::Refuses(
                Refused { key: second, reason: Refusal::Occupied },
            )
        }),
        !(Refused { key: second, reason: Refusal::Occupied }).withheld(),
{
    assert(m.connects(first, second.destination()));
}

/// A SYN that comes while there are as many connections as may be is not rejected: the
/// engine does not see it.
pub proof fn an_extra_syn_is_not_rejected(
    admission: Admission,
    config: NetstackConfig,
    interface: InterfaceId,
    packet: Seq<u8>,
    key: SessionKey,
)
    requires
        flow_of(packet) == Some((key.src, key.dst, L4::Tcp { syn: true })),
        key.interface == interface,
        key.proto == Proto::Tcp,
        !admission.gate.tcp.contains(key),
        admission.gate.tcp.len() >= config.tcp_max_connections,
    ensures
        admission.after(config, interface, packet) == (Admission {
            refused: admission.refused.push(Refused { key, reason: Refusal::Limit }),
            ..admission
        }),
{
}

/// TCP segments that do not open a connection, and packets that carry neither TCP nor
/// UDP, open no session and are left to the engine.
pub proof fn only_a_syn_or_a_datagram_opens_a_session(
    admission: Admission,
    config: NetstackConfig,
    interface: InterfaceId,
    packet: Seq<u8>,
)
    requires
        flow_of(packet) matches Some((_, _, l4)) ==> l4 == (L4::Tcp { syn: false }),
    ensures
        admission.after(config, interface, packet) == (Admission {
            left: admission.left.push((interface, packet)),
            ..admission
        }),
{
}

/// However many packets come, the sessions of either protocol never outnumber the
/// configured maximum, unless they did before, and the budget is never exceeded.
pub proof fn limits_are_never_exceeded(
    admission: Admission,
    config: NetstackConfig,
    packets: Seq<(InterfaceId, Seq<u8>)>,
)
    requires
        admission.gate.tcp.finite(),
        admission.gate.udp.finite(),
        config.admits(admission.gate.buffer_bytes),
    ensures
        ({
            let before = admission.gate;
            let after = admission.after_all(config, packets).gate;
            &&& after.tcp.finite()
            &&& after.udp.finite()
            &&& after.tcp.len() <= config.tcp_max_connections || after.tcp == before.tcp
            &&& after.udp.len() <= config.udp_max_sessions || after.udp == before.udp
            &&& config.admits(after.buffer_bytes)
        }),
    decreases packets.len(),
{
    if packets.len() > 0 {
        limits_are_never_exceeded(admission, config, packets.drop_last());
    }
}

/// A packet that opens nothing now opens nothing after another one.
proof fn lemma_nothing_stays_nothing(
    gate: Gate,
    config: NetstackConfig,
    first: (InterfaceId, Option<(IpEndpoint, IpEndpoint, L4)>),
    second: (InterfaceId, Option<(IpEndpoint, IpEndpoint, L4)>),
)
    requires
        gate.tcp.finite(),
        gate.udp.finite(),
        !(gate.verdict(config, first.0, first.1) is Opens),
    ensures
        ({
            let later = gate.after(config, gate.verdict(config, second.0, second.1));
            !(later.verdict(config, first.0, first.1) is Opens)
        }),
{
    let later = gate.after(config, gate.verdict(config, second.0, second.1));
    assert(later.tcp.len() >= gate.tcp.len());
    assert(later.udp.len() >= gate.udp.len());
    assert(later.buffer_bytes >= gate.buffer_bytes);
}

/// None of the packets that have been looked at opens anything any more.
proof fn lemma_nothing_is_left_to_open(
    admission: Admission,
    config: NetstackConfig,
    packets: Seq<(InterfaceId, Seq<u8>)>,
)
    requires
        admission.gate.tcp.finite(),
        admission.gate.udp.finite(),
    ensures
        ({
            let once = admission.after_all(config, packets);
            &&& once.gate.tcp.finite()
            &&& once.gate.udp.finite()
            &&& forall|p: (InterfaceId, Seq<u8>)| #[trigger]
                packets.contains(p) ==> !(once.gate.verdict(config, p.0, flow_of(p.1)) is Opens)
            &&& forall|p: (InterfaceId, Seq<u8>)| #[trigger]
                once.left.contains(p) ==> packets.contains(p) || admission.left.contains(p)
        }),
    decreases packets.len(),
{
    if packets.len() > 0 {
        let rest = packets.drop_last();
        let last = packets.last();
        lemma_nothing_is_left_to_open(admission, config, rest);
        let before = admission.after_all(config, rest);
        let once = admission.after_all(config, packets);
        assert(packets =~= rest.push(last));
        assert forall|p: (InterfaceId, Seq<u8>)| packets.contains(p) <==> rest.contains(p) || p
            == last by {
            if rest.contains(p) {
                assert(packets[rest.index_of(p)] == p);
            }
            assert(packets[rest.len() as int] == last);
            if packets.contains(p) && p != last {
                assert(rest[packets.index_of(p)] == p);
            }
        }
        assert forall|p: (InterfaceId, Seq<u8>)| #[trigger]
            packets.contains(p) implies !(once.gate.verdict(config, p.0, flow_of(p.1)) is Opens) by {
            if rest.contains(p) {
                lemma_nothing_stays_nothing(
                    before.gate,
                    config,
                    (p.0, flow_of(p.1)),
                    (last.0, flow_of(last.1)),
                );
            }
        }
        assert forall|p: (InterfaceId, Seq<u8>)| #[trigger]
            once.left.contains(p) implies packets.contains(p) || admission.left.contains(p) by {
            let i = once.left.index_of(p);
            if i < before.left.len() {
                assert(before.left[i] == p);
                assert(before.left.contains(p));
            }
        }
    }
}

/// Where none of the packets opens anything, nothing is opened.
proof fn lemma_nothing_opens(
    admission: Admission,
    config: NetstackConfig,
    packets: Seq<(InterfaceId, Seq<u8>)>,
)
    requires
        forall|i: int|
            0 <= i < packets.len() ==> !(admission.gate.verdict(
                config,
                (#[trigger] packets[i]).0,
                flow_of(packets[i].1),
            ) is Opens),
    ensures
        admission.after_all(config, packets).gate == admission.gate,
        admission.after_all(config, packets).opened == admission.opened,
    decreases packets.len(),
{
    if packets.len() > 0 {
        let rest = packets.drop_last();
        assert forall|i: int| 0 <= i < rest.len() implies !(admission.gate.verdict(
            config,
            (#[trigger] rest[i]).0,
            flow_of(rest[i].1),
        ) is Opens) by {
            assert(rest[i] == packets[i]);
        }
        lemma_nothing_opens(admission, config, rest);
        assert(packets.last() == packets[packets.len() - 1]);
    }
}

/// Looking again at what a look at the packets has left opens nothing.
pub proof fn a_second_look_opens_nothing(
    gate: Gate,
    config: NetstackConfig,
    packets: Seq<(InterfaceId, Seq<u8>)>,
)
    requires
        gate.tcp.finite(),
        gate.udp.finite(),
    ensures
        ({
            let fresh = Admission {
                gate,
                opened: Seq::empty(),
                left: Seq::empty(),
                refused: Seq::empty(),
            };
            let once = fresh.after_all(config, packets);
            let twice = (Admission { gate: once.gate, ..fresh }).after_all(config, once.left);
            &&& twice.gate == once.gate
            &&& twice.opened.len() == 0
        }),
{
    let fresh = Admission {
        gate,
        opened: Seq::empty(),
        left: Seq::empty(),
        refused: Seq::empty(),
    };
    let once = fresh.after_all(config, packets);
    let again = Admission { gate: once.gate, ..fresh };
    lemma_nothing_is_left_to_open(fresh, config, packets);
    assert forall|i: int| 0 <= i < once.left.len() implies !(again.gate.verdict(
        config,
        (#[trigger] once.left[i]).0,
        flow_of(once.left[i].1),
    ) is Opens) by {
        assert(once.left.contains(once.left[i]));
        assert(packets.contains(once.left[i]));
    }
    lemma_nothing_opens(again, config, once.left);
}

} // verus!
