//! The stack as a mathematical value: what its state holds, what keeps it
//! consistent, and what each operation makes of it.

use smoltcp::iface::{Interface, SocketHandle};
use vstd::prelude::*;

use crate::InterfaceId;
use crate::builder::NetstackConfig;
use crate::device::DeviceModel;
use crate::engine::interface::interface_model;
use crate::engine::socket_set::SocketModel;
use crate::engine::tcp_socket::LocalEndpoint;
use crate::session::manager::{QueueModel, SharedSocket, TcpEntry, UdpEntry};
use crate::session::types::{Destination, Proto, SessionKey};

pub mod delivery;
pub mod queues;
pub mod round;
pub mod tcp;
pub mod udp;

verus! {

/// Names a socket among all interfaces.
pub struct SocketId {
    pub interface: InterfaceId,
    pub handle: SocketHandle,
}

/// One interface: its protocol side and its device.
#[verifier::ext_equal]
pub struct LinkModel {
    pub id: InterfaceId,
    pub iface: Interface,
    pub device: DeviceModel,
}

/// The whole state of a stack.
#[verifier::ext_equal]
pub struct StackModel {
    pub links: Seq<LinkModel>,
    pub sockets: Map<SocketId, SocketModel>,
    pub tcp: Map<SessionKey, TcpEntry>,
    pub udp: Map<SessionKey, UdpEntry>,
    /// The UDP sockets that sessions share, by destination.
    pub shared: Map<Destination, SharedSocket>,
    pub queues: Map<usize, QueueModel>,
    pub config: NetstackConfig,
    /// The buffer bytes that are accounted for.
    pub buffer_bytes: nat,
}

/// `a` may become `b`: they are sockets of the same kind. UDP sockets are attached to the
/// same local endpoint and have the same number of records, and keep within it. For TCP
/// sockets, the engine can still tell when they are due.
pub open spec fn same_attachment(a: SocketModel, b: SocketModel) -> bool {
    match (a, b) {
        (SocketModel::Tcp(x), SocketModel::Tcp(y)) => x.timeable() ==> y.timeable(),
        (SocketModel::Udp(x), SocketModel::Udp(y)) => {
            &&& x.local == y.local
            &&& x.rx_packets == y.rx_packets
            &&& x.tx_packets == y.tx_packets
            &&& x.within_bounds() ==> y.within_bounds()
        },
        _ => false,
    }
}

/// One of the interfaces has this identifier.
pub open spec fn listed(links: Seq<LinkModel>, id: InterfaceId) -> bool {
    exists|i: int| 0 <= i < links.len() && (#[trigger] links[i]).id == id
}

impl StackModel {
    pub open spec fn has_interface(self, id: InterfaceId) -> bool {
        listed(self.links, id)
    }

    /// The socket of a TCP session.
    pub open spec fn tcp_socket(self, key: SessionKey) -> SocketId {
        SocketId { interface: key.interface, handle: self.tcp[key].handle }
    }

    /// The socket that the UDP sessions of a destination share.
    pub open spec fn shared_socket(self, dest: Destination) -> SocketId {
        SocketId { interface: dest.interface, handle: self.shared[dest].handle }
    }

    /// The UDP sessions of a destination.
    pub open spec fn users(self, dest: Destination) -> Set<SessionKey> {
        self.udp.dom().filter(|k: SessionKey| k.destination() == dest)
    }

    /// The buffer bytes of all sockets together.
    pub open spec fn charged(self) -> nat {
        self.tcp.len() * self.config.tcp_cost() + self.shared.len() * self.config.udp_cost()
    }

    /// A session or a destination has this socket.
    pub open spec fn owned(self, socket: SocketId) -> bool {
        ||| exists|k: SessionKey|
            self.tcp.contains_key(k) && #[trigger] self.tcp_socket(k) == socket
        ||| exists|d: Destination|
            self.shared.contains_key(d) && #[trigger] self.shared_socket(d) == socket
    }

    /// No two interfaces share an identifier, every interface has room for the headers
    /// of a segment, and every device carries packets of the configured size, and holds
    /// no larger ones.
    pub open spec fn links_wf(self) -> bool {
        &&& forall|i: int, j: int|
            0 <= i < j < self.links.len() ==> (#[trigger] self.links[i]).id != (
            #[trigger] self.links[j]).id
        &&& forall|i: int|
            0 <= i < self.links.len() ==> (#[trigger] self.links[i]).device.mtu == self.config.mtu
                && interface_model(self.links[i].iface).carries_segments()
        &&& forall|i: int, n: int|
            0 <= i < self.links.len() && 0 <= n < self.links[i].device.ingress.len() ==> (
            #[trigger] self.links[i].device.ingress[n]).len() <= self.config.mtu
    }

    /// Every TCP session has a TCP socket to itself, and the engine can tell when it is
    /// due.
    pub open spec fn tcp_wf(self) -> bool {
        &&& self.tcp.dom().finite()
        &&& forall|k: SessionKey| #[trigger]
            self.tcp.contains_key(k) ==> {
                &&& k.proto == Proto::Tcp
                &&& self.has_interface(k.interface)
                &&& self.sockets.contains_key(self.tcp_socket(k))
                &&& self.sockets[self.tcp_socket(k)] matches SocketModel::Tcp(t) && t.timeable()
            }
        &&& forall|a: SessionKey, b: SessionKey|
            self.tcp.contains_key(a) && self.tcp.contains_key(b) && #[trigger] self.tcp_socket(a)
                == #[trigger] self.tcp_socket(b) ==> a == b
    }

    /// Every destination has a UDP socket to itself, bound to it and with as many records
    /// as are configured, and counts its sessions, of which there is at least one.
    pub open spec fn shared_wf(self) -> bool {
        &&& self.shared.dom().finite()
        &&& forall|d: Destination| #[trigger]
            self.shared.contains_key(d) ==> {
                &&& d.dst.port != 0
                &&& self.has_interface(d.interface)
                &&& self.sockets.contains_key(self.shared_socket(d))
                &&& self.sockets[self.shared_socket(d)] matches SocketModel::Udp(u) && {
                    &&& u.local == LocalEndpoint::at(d.dst)
                    &&& u.rx_packets == self.config.udp_packets()
                    &&& u.tx_packets == self.config.udp_packets()
                    &&& u.within_bounds()
                }
                &&& self.shared[d].count == self.users(d).len()
                &&& self.shared[d].count >= 1
            }
    }

    /// Every UDP session has the socket of its destination and an open receive
    /// queue to itself.
    pub open spec fn udp_wf(self) -> bool {
        &&& self.udp.dom().finite()
        &&& forall|k: SessionKey| #[trigger]
            self.udp.contains_key(k) ==> {
                &&& k.proto == Proto::Udp
                &&& self.shared.contains_key(k.destination())
                &&& self.udp[k].socket == self.shared[k.destination()].handle
                &&& self.queues.contains_key(self.udp[k].queue)
                &&& !self.queues[self.udp[k].queue].closed
                &&& self.udp[k].last_activity >= 0
            }
        &&& forall|a: SessionKey, b: SessionKey|
            #![trigger self.udp[a].queue, self.udp[b].queue]
            self.udp.contains_key(a) && self.udp.contains_key(b) && self.udp[a].queue
                == self.udp[b].queue ==> a == b
    }

    /// Every socket belongs to a session.
    pub open spec fn owners_wf(self) -> bool {
        forall|p: SocketId| #[trigger] self.sockets.contains_key(p) ==> self.owned(p)
    }

    /// What the sockets take is accounted for, no more and no less, and the total is
    /// within the cap.
    pub open spec fn budget_wf(self) -> bool {
        &&& self.buffer_bytes == self.charged()
        &&& self.config.admits(self.buffer_bytes)
    }

    /// The state is consistent.
    pub open spec fn wf(self) -> bool {
        &&& self.links_wf()
        &&& self.tcp_wf()
        &&& self.shared_wf()
        &&& self.udp_wf()
        &&& self.owners_wf()
        &&& self.budget_wf()
    }
}

/// The two states differ only in what the engine may change on its own: packets
/// that wait in the devices, and what the sockets have received, sent and agreed
/// with their peers. No device holds a packet that is larger than it can carry.
pub open spec fn engine_step(a: StackModel, b: StackModel) -> bool {
    &&& b.tcp == a.tcp
    &&& b.udp == a.udp
    &&& b.shared == a.shared
    &&& b.queues == a.queues
    &&& b.config == a.config
    &&& b.buffer_bytes == a.buffer_bytes
    &&& b.links.len() == a.links.len()
    &&& forall|i: int|
        0 <= i < a.links.len() ==> {
            &&& (#[trigger] b.links[i]).id == a.links[i].id
            &&& b.links[i].device.mtu == a.links[i].device.mtu
            &&& interface_model(b.links[i].iface).ip_mtu == interface_model(
                a.links[i].iface,
            ).ip_mtu
            &&& forall|n: int|
                0 <= n < b.links[i].device.ingress.len() ==> (
                #[trigger] b.links[i].device.ingress[n]).len() <= a.config.mtu
        }
    &&& b.sockets.dom() == a.sockets.dom()
    &&& forall|p: SocketId| #[trigger]
        a.sockets.contains_key(p) ==> same_attachment(a.sockets[p], b.sockets[p])
}

/// Whatever the engine does with the contents of sockets and devices, the state
/// stays consistent.
pub proof fn engine_steps_keep_the_state_consistent(a: StackModel, b: StackModel)
    requires
        a.wf(),
        engine_step(a, b),
    ensures
        b.wf(),
{
    assert forall|id: InterfaceId| a.has_interface(id) implies b.has_interface(id) by {
        let i = choose|i: int| 0 <= i < a.links.len() && (#[trigger] a.links[i]).id == id;
        assert(b.links[i].id == id);
    }
    assert forall|p: SocketId| #[trigger] b.sockets.contains_key(p) implies a.sockets.contains_key(
        p,
    ) by {
        assert(b.sockets.dom().contains(p));
    }
    assert forall|p: SocketId| #[trigger] a.sockets.contains_key(p) implies b.sockets.contains_key(
        p,
    ) by {
        assert(a.sockets.dom().contains(p));
    }
    assert(forall|k: SessionKey| #[trigger] b.tcp_socket(k) == a.tcp_socket(k));
    assert(forall|d: Destination| #[trigger] b.shared_socket(d) == a.shared_socket(d));
    assert(forall|d: Destination| #[trigger] b.users(d) == a.users(d));
    assert(b.owners_wf()) by {
        assert forall|p: SocketId| #[trigger] b.sockets.contains_key(p) implies b.owned(p) by {
            lemma_still_owned(a, b, p);
        }
    }
}

/// The links may change in anything but their identifiers and packet sizes.
pub(crate) proof fn lemma_links_changed(a: StackModel, b: StackModel)
    requires
        a.wf(),
        b == (StackModel { links: b.links, ..a }),
        b.links.len() == a.links.len(),
        forall|i: int|
            0 <= i < a.links.len() ==> {
                &&& (#[trigger] b.links[i]).id == a.links[i].id
                &&& b.links[i].device.mtu == a.links[i].device.mtu
                &&& interface_model(b.links[i].iface).ip_mtu == interface_model(
                    a.links[i].iface,
                ).ip_mtu
                &&& forall|n: int|
                    0 <= n < b.links[i].device.ingress.len() ==> (
                    #[trigger] b.links[i].device.ingress[n]).len() <= a.config.mtu
            },
    ensures
        b.wf(),
{
    assert forall|p: SocketId| #[trigger] a.sockets.contains_key(p) implies same_attachment(
        a.sockets[p],
        b.sockets[p],
    ) by {}
    engine_steps_keep_the_state_consistent(a, b);
}

impl StackModel {
    /// With another content in a socket.
    pub open spec fn with_socket(self, id: SocketId, socket: SocketModel) -> StackModel {
        StackModel { sockets: self.sockets.insert(id, socket), ..self }
    }
}

pub(crate) proof fn lemma_with_socket(m: StackModel, id: SocketId, socket: SocketModel)
    requires
        m.wf(),
        m.sockets.contains_key(id),
        same_attachment(m.sockets[id], socket),
    ensures
        m.with_socket(id, socket).wf(),
{
    let after = m.with_socket(id, socket);
    assert(after.sockets.dom() =~= m.sockets.dom());
    engine_steps_keep_the_state_consistent(m, after);
}

/// A socket stays owned where its owner stays.
pub(crate) proof fn lemma_still_owned(a: StackModel, b: StackModel, p: SocketId)
    requires
        a.owned(p),
        forall|k: SessionKey|
            a.tcp.contains_key(k) && #[trigger] a.tcp_socket(k) == p ==> b.tcp.contains_key(k)
                && b.tcp[k].handle == a.tcp[k].handle,
        forall|d: Destination|
            a.shared.contains_key(d) && #[trigger] a.shared_socket(d) == p
                ==> b.shared.contains_key(d) && b.shared[d].handle == a.shared[d].handle,
    ensures
        b.owned(p),
{
    if exists|k: SessionKey| a.tcp.contains_key(k) && #[trigger] a.tcp_socket(k) == p {
        let k = choose|k: SessionKey| a.tcp.contains_key(k) && #[trigger] a.tcp_socket(k) == p;
        assert(b.tcp_socket(k) == p);
    } else {
        let d = choose|d: Destination|
            a.shared.contains_key(d) && #[trigger] a.shared_socket(d) == p;
        assert(b.shared_socket(d) == p);
    }
}

pub(crate) proof fn lemma_times_succ(n: nat, c: nat)
    ensures
        (n + 1) * c == n * c + c,
{
    assert((n + 1) * c == n * c + c) by (nonlinear_arith);
}

pub(crate) proof fn lemma_times_mono(a: nat, b: nat, c: nat)
    requires
        a <= b,
    ensures
        a * c <= b * c,
{
    assert(a * c <= b * c) by (nonlinear_arith)
        requires
            a <= b,
    ;
}

} // verus!
