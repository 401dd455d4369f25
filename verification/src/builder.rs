//! Configuration of a stack, and its construction.

use core::time::Duration;
use smoltcp::iface::{Interface, SocketHandle};
use vstd::prelude::*;

use crate::addr::{IpAddress, IpEndpoint, Ipv4Addr, Ipv6Addr};
use crate::device::{DeviceModel, VirtualDevice};
use crate::engine::clock::whole_micros;
use crate::engine::interface::{self, interface_model, Cidr, InterfaceModel};
use crate::engine::socket_set::{self, growable, sockets_of, SocketModel};
use crate::engine::tcp_socket::MAX_TCP_BUFFER;
use crate::engine::udp_socket::UdpModel;
use crate::error::NetstackError;
use crate::log::LogLevel;
use crate::model::SocketId;
use crate::session::manager::{QueueModel, SessionManager, SharedSocket, TcpEntry, UdpEntry};
use crate::session::types::{Destination, SessionKey};
use crate::state::{socket_in_slot, Core, InterfaceSlot};
use crate::InterfaceId;

verus! {

/// Tunable parameters of a stack.
#[derive(Debug, Clone, Copy)]
pub struct NetstackConfig {
    /// Maximum size (in bytes) of an IP packet the device can carry.
    pub mtu: usize,
    /// Size of the Rx/Tx buffer for every TCP socket.
    pub tcp_buffer_size: usize,
    /// Maximum number of simultaneous TCP sessions.
    pub tcp_max_connections: usize,
    /// Inactivity timeout after which a UDP session is reclaimed.
    pub udp_session_timeout: Duration,
    /// Maximum number of simultaneous UDP sessions.
    pub udp_max_sessions: usize,
    /// Capacity of the ingress and egress message queues.
    pub channel_capacity: usize,
    /// Minimum level of events this stack emits.
    pub log_level: LogLevel,
    /// Max queued datagrams per UDP destination socket.
    pub udp_buffer_packets: usize,
    /// Max total payload bytes per UDP destination socket.
    pub udp_buffer_bytes: usize,
    /// Hard cap on the buffer bytes that the stack allocates, or `None` for
    /// unlimited.
    pub max_buffer_bytes: Option<usize>,
}

impl NetstackConfig {
    /// The default parameters.
    pub open spec fn is_default(self) -> bool {
        &&& self.mtu == 1500
        &&& self.tcp_buffer_size == 16 * 1024
        &&& self.tcp_max_connections == 4096
        &&& whole_micros(self.udp_session_timeout) == 30 * 1_000_000
        &&& self.udp_max_sessions == 4096
        &&& self.channel_capacity == 2048
        &&& self.log_level is Info
        &&& self.udp_buffer_packets == 16
        &&& self.udp_buffer_bytes == 16 * 1024
        &&& self.max_buffer_bytes is None
    }

    /// What a TCP socket is charged for: its two buffers.
    pub open spec fn tcp_cost(self) -> nat {
        2 * self.tcp_buffer_size as nat
    }

    /// How many datagrams a buffer of a UDP socket has records for.
    pub open spec fn udp_packets(self) -> nat {
        if self.udp_buffer_packets >= 1 {
            self.udp_buffer_packets as nat
        } else {
            1
        }
    }

    /// How many octets of payload a buffer of a UDP socket holds: as many as
    /// configured, but never less than one packet of full size.
    pub open spec fn udp_bytes(self) -> nat {
        if self.udp_buffer_bytes >= self.mtu {
            self.udp_buffer_bytes as nat
        } else {
            self.mtu as nat
        }
    }

    /// What one buffer of a UDP socket takes: 64 octets for each record, and the
    /// payload.
    pub open spec fn udp_buffer_cost(self) -> nat {
        self.udp_packets() * 64 + self.udp_bytes()
    }

    /// What a UDP socket is charged for: its two buffers.
    pub open spec fn udp_cost(self) -> nat {
        2 * self.udp_buffer_cost()
    }

    /// A UDP socket bound to `dst` that has carried nothing yet.
    pub open spec fn udp_socket_at(self, dst: IpEndpoint) -> UdpModel {
        UdpModel::bound_at(dst, self.udp_packets(), self.udp_bytes())
    }

    /// Buffers of the configured sizes can be allocated, unless the cap rules out that
    /// they ever are. Those of UDP sockets can wherever their total can be counted.
    pub open spec fn allocatable(self) -> bool {
        self.tcp_buffer_size <= MAX_TCP_BUFFER || !self.admits(self.tcp_cost())
    }

    /// The timeout of UDP sessions can be measured.
    pub open spec fn measurable(self) -> bool {
        self.udp_timeout() <= u64::MAX
    }

    /// Whether buffers of the configured sizes can be allocated, or the cap rules out
    /// that they ever are, and the timeout of UDP sessions can be measured.
    pub fn is_supported(&self) -> (supported: bool)
        ensures
            supported == (self.allocatable() && self.measurable()),
    {
        if self.udp_session_timeout.as_micros() > u64::MAX as u128 {
            return false;
        }
        self.tcp_buffer_size <= MAX_TCP_BUFFER || !self.is_within_cap(self.tcp_socket_cost())
    }

    /// Whether the total of buffer bytes may be `bytes`; `None` is more than can be
    /// counted.
    pub(crate) fn is_within_cap(&self, bytes: Option<usize>) -> (within: bool)
        ensures
            within == (bytes matches Some(b) && self.admits(b as nat)),
    {
        match (self.max_buffer_bytes, bytes) {
            (_, None) => false,
            (None, Some(_)) => true,
            (Some(limit), Some(bytes)) => bytes <= limit,
        }
    }

    /// The total of buffer bytes may be `bytes`: it can be counted, and is within the
    /// cap.
    pub open spec fn admits(self, bytes: nat) -> bool {
        &&& bytes <= usize::MAX
        &&& self.max_buffer_bytes matches Some(limit) ==> bytes <= limit
    }

    /// How many messages the ingress and egress queues hold: at least one.
    pub fn queue_capacity(&self) -> (capacity: usize)
        ensures
            capacity == if self.channel_capacity >= 1 {
                self.channel_capacity
            } else {
                1
            },
    {
        if self.channel_capacity >= 1 {
            self.channel_capacity
        } else {
            1
        }
    }

    /// How many datagrams a buffer of a UDP socket has records for.
    pub(crate) fn udp_socket_packets(&self) -> (packets: usize)
        ensures
            packets == self.udp_packets(),
    {
        if self.udp_buffer_packets >= 1 {
            self.udp_buffer_packets
        } else {
            1
        }
    }

    /// How many octets of payload a buffer of a UDP socket holds, where packets
    /// have up to `mtu` octets.
    pub(crate) fn udp_socket_bytes(&self, mtu: usize) -> (bytes: usize)
        requires
            mtu == self.mtu,
        ensures
            bytes == self.udp_bytes(),
    {
        if self.udp_buffer_bytes >= mtu {
            self.udp_buffer_bytes
        } else {
            mtu
        }
    }

    /// What a TCP socket is charged for, if that can be counted.
    pub(crate) fn tcp_socket_cost(&self) -> (cost: Option<usize>)
        ensures
            cost == if self.tcp_cost() <= usize::MAX {
                Some(self.tcp_cost() as usize)
            } else {
                None
            },
    {
        self.tcp_buffer_size.checked_mul(2)
    }

    /// What one buffer of a UDP socket takes, where packets have up to `mtu` octets, if
    /// that can be counted.
    fn udp_socket_buffer_cost(&self, mtu: usize) -> (cost: Option<usize>)
        requires
            mtu == self.mtu,
        ensures
            cost == if self.udp_buffer_cost() <= usize::MAX {
                Some(self.udp_buffer_cost() as usize)
            } else {
                None
            },
    {
        match self.udp_socket_packets().checked_mul(64) {
            Some(records) => records.checked_add(self.udp_socket_bytes(mtu)),
            None => None,
        }
    }

    /// What a UDP socket is charged for, where packets have up to `mtu` octets, if that
    /// can be counted.
    pub(crate) fn udp_socket_cost(&self, mtu: usize) -> (cost: Option<usize>)
        requires
            mtu == self.mtu,
        ensures
            cost == if self.udp_cost() <= usize::MAX {
                Some(self.udp_cost() as usize)
            } else {
                None
            },
    {
        match self.udp_socket_buffer_cost(mtu) {
            Some(cost) => cost.checked_mul(2),
            None => None,
        }
    }

    /// The timeout of UDP sessions in microseconds.
    pub open spec fn udp_timeout(self) -> nat {
        whole_micros(self.udp_session_timeout)
    }
}

impl Default for NetstackConfig {
    fn default() -> (config: NetstackConfig)
        ensures
            config.is_default(),
    {
        NetstackConfig {
            mtu: 1500,
            tcp_buffer_size: 16 * 1024,
            tcp_max_connections: 4096,
            udp_session_timeout: Duration::from_secs(30),
            udp_max_sessions: 4096,
            channel_capacity: 2048,
            log_level: LogLevel::Info,
            udp_buffer_packets: 16,
            udp_buffer_bytes: 16 * 1024,
            max_buffer_bytes: None,
        }
    }
}

/// The default parameters are within what can be allocated and measured.
pub proof fn default_parameters_are_supported(config: NetstackConfig)
    requires
        config.is_default(),
    ensures
        config.allocatable(),
        config.measurable(),
{
}

/// Static configuration of a single virtual interface: its assigned IP addresses
/// and (optional) default gateways.
#[derive(Debug, Clone)]
pub struct InterfaceConfig {
    /// IPv4 addresses with the lengths of their prefixes.
    pub ipv4_addrs: Vec<(Ipv4Addr, u8)>,
    /// IPv6 addresses with the lengths of their prefixes.
    pub ipv6_addrs: Vec<(Ipv6Addr, u8)>,
    /// IPv4 default gateway (optional).
    pub ipv4_gateway: Option<Ipv4Addr>,
    /// IPv6 default gateway (optional).
    pub ipv6_gateway: Option<Ipv6Addr>,
}

impl Default for InterfaceConfig {
    fn default() -> (config: InterfaceConfig)
        ensures
            config.ipv4_addrs@.len() == 0,
            config.ipv6_addrs@.len() == 0,
            config.ipv4_gateway is None,
            config.ipv6_gateway is None,
    {
        InterfaceConfig {
            ipv4_addrs: Vec::new(),
            ipv6_addrs: Vec::new(),
            ipv4_gateway: None,
            ipv6_gateway: None,
        }
    }
}

impl InterfaceConfig {
    /// The same but for some IPv4 addresses.
    pub open spec fn differs_in_ipv4(self, other: InterfaceConfig) -> bool {
        self == (InterfaceConfig { ipv4_addrs: self.ipv4_addrs, ..other })
    }

    /// The same but for some IPv6 addresses.
    pub open spec fn differs_in_ipv6(self, other: InterfaceConfig) -> bool {
        self == (InterfaceConfig { ipv6_addrs: self.ipv6_addrs, ..other })
    }

    /// Builds an interface configuration with a single IPv4 address.
    pub fn new(ipv4: Ipv4Addr, prefix: u8) -> (config: InterfaceConfig)
        ensures
            config.ipv4_addrs@ == seq![(ipv4, prefix)],
            config.ipv6_addrs@.len() == 0,
            config.ipv4_gateway is None,
            config.ipv6_gateway is None,
    {
        let mut config = InterfaceConfig::default();
        config.ipv4_addrs.push((ipv4, prefix));
        assert(config.ipv4_addrs@ =~= seq![(ipv4, prefix)]);
        config
    }

    /// Builds an IPv6-only interface configuration.
    pub fn new_ipv6(ipv6: Ipv6Addr, prefix: u8) -> (config: InterfaceConfig)
        ensures
            config.ipv6_addrs@ == seq![(ipv6, prefix)],
            config.ipv4_addrs@.len() == 0,
            config.ipv4_gateway is None,
            config.ipv6_gateway is None,
    {
        let mut config = InterfaceConfig::default();
        config.ipv6_addrs.push((ipv6, prefix));
        assert(config.ipv6_addrs@ =~= seq![(ipv6, prefix)]);
        config
    }

    /// Adds another IPv4 address to the interface.
    pub fn ipv4(self, addr: Ipv4Addr, prefix: u8) -> (config: InterfaceConfig)
        ensures
            config.differs_in_ipv4(self),
            config.ipv6_addrs == self.ipv6_addrs,
            config.ipv4_gateway == self.ipv4_gateway,
            config.ipv6_gateway == self.ipv6_gateway,
            config.ipv4_addrs@ == self.ipv4_addrs@.push((addr, prefix)),
    {
        let mut config = self;
        config.ipv4_addrs.push((addr, prefix));
        config
    }

    /// Adds an IPv6 address to the interface.
    pub fn ipv6(self, addr: Ipv6Addr, prefix: u8) -> (config: InterfaceConfig)
        ensures
            config.differs_in_ipv6(self),
            config.ipv4_addrs == self.ipv4_addrs,
            config.ipv4_gateway == self.ipv4_gateway,
            config.ipv6_gateway == self.ipv6_gateway,
            config.ipv6_addrs@ == self.ipv6_addrs@.push((addr, prefix)),
    {
        let mut config = self;
        config.ipv6_addrs.push((addr, prefix));
        config
    }

    /// Sets the interface's IPv4 default gateway. Without one, the first IPv4
    /// address takes its place.
    pub fn gateway_ipv4(self, gw: Ipv4Addr) -> (config: InterfaceConfig)
        ensures
            config == (InterfaceConfig { ipv4_gateway: Some(gw), ..self }),
    {
        let mut config = self;
        config.ipv4_gateway = Some(gw);
        config
    }

    /// Sets the interface's IPv6 default gateway. Without one, the first IPv6
    /// address takes its place.
    pub fn gateway_ipv6(self, gw: Ipv6Addr) -> (config: InterfaceConfig)
        ensures
            config == (InterfaceConfig { ipv6_gateway: Some(gw), ..self }),
    {
        let mut config = self;
        config.ipv6_gateway = Some(gw);
        config
    }

    /// Every address can be assigned and has a prefix of a possible length.
    pub open spec fn valid(self) -> bool {
        &&& forall|i: int|
            0 <= i < self.ipv4_addrs@.len() ==> ipv4_assignable(#[trigger] self.ipv4_addrs@[i])
        &&& forall|i: int|
            0 <= i < self.ipv6_addrs@.len() ==> ipv6_assignable(#[trigger] self.ipv6_addrs@[i])
    }

    /// The interface takes every address.
    pub open spec fn fits(self, iface: InterfaceModel) -> bool {
        &&& self.valid()
        &&& iface.ethernet ==> forall|i: int|
            0 <= i < self.ipv6_addrs@.len() ==> (#[trigger] self.ipv6_addrs@[i]).0.bits != 0
    }

    /// Whether every address can be assigned and has a prefix of a possible length.
    pub fn is_valid(&self) -> (valid: bool)
        ensures
            valid == self.valid(),
    {
        let mut i: usize = 0;
        while i < self.ipv4_addrs.len()
            invariant
                i <= self.ipv4_addrs@.len(),
                forall|j: int| 0 <= j < i ==> ipv4_assignable(#[trigger] self.ipv4_addrs@[j]),
            decreases self.ipv4_addrs@.len() - i,
        {
            let (addr, prefix) = self.ipv4_addrs[i];
            if prefix > 32 || (0xe000_0000 <= addr.bits && addr.bits <= 0xefff_ffff) || addr.bits
                == 0xffff_ffff {
                assert(!ipv4_assignable(self.ipv4_addrs@[i as int]));
                return false;
            }
            i += 1;
        }
        let mut i: usize = 0;
        while i < self.ipv6_addrs.len()
            invariant
                i <= self.ipv6_addrs@.len(),
                forall|j: int| 0 <= j < i ==> ipv6_assignable(#[trigger] self.ipv6_addrs@[j]),
            decreases self.ipv6_addrs@.len() - i,
        {
            let (addr, prefix) = self.ipv6_addrs[i];
            if prefix > 128 || addr.bits >= 0xff00_0000_0000_0000_0000_0000_0000_0000 {
                assert(!ipv6_assignable(self.ipv6_addrs@[i as int]));
                return false;
            }
            i += 1;
        }
        true
    }

    /// What an interface is configured with by this: packets for any address are
    /// accepted, the addresses are assigned as far as there is room, the IPv4 ones
    /// first, and there is a default route for each version that has a gateway or
    /// an address.
    pub open spec fn applied_to(self, iface: InterfaceModel) -> InterfaceModel {
        let open = InterfaceModel { any_ip: true, ..iface };
        let addressed = with_ipv6_addrs(
            with_ipv4_addrs(open, self.ipv4_addrs@),
            self.ipv6_addrs@,
        );
        let routed = match self.ipv4_route() {
            Some(gw) => addressed.with_route(Cidr::all_ipv4(), IpAddress::Ipv4(gw)),
            None => addressed,
        };
        match self.ipv6_route() {
            Some(gw) => routed.with_route(Cidr::all_ipv6(), IpAddress::Ipv6(gw)),
            None => routed,
        }
    }

    /// The addresses that an interface has no room for, the IPv4 ones first.
    pub open spec fn unassigned(self, id: InterfaceId, iface: InterfaceModel) -> Seq<Unassigned> {
        unassigned_ipv4(id, iface, self.ipv4_addrs@) + unassigned_ipv6(
            id,
            with_ipv4_addrs(iface, self.ipv4_addrs@),
            self.ipv6_addrs@,
        )
    }

    /// Where IPv4 packets for others go: to the gateway, else to the first address.
    pub open spec fn ipv4_route(self) -> Option<Ipv4Addr> {
        if self.ipv4_gateway is Some {
            self.ipv4_gateway
        } else if self.ipv4_addrs@.len() > 0 {
            Some(self.ipv4_addrs@[0].0)
        } else {
            None
        }
    }

    /// Where IPv6 packets for others go: to the gateway, else to the first address.
    pub open spec fn ipv6_route(self) -> Option<Ipv6Addr> {
        if self.ipv6_gateway is Some {
            self.ipv6_gateway
        } else if self.ipv6_addrs@.len() > 0 {
            Some(self.ipv6_addrs@[0].0)
        } else {
            None
        }
    }
}

/// Transparent interception: whatever an interface is configured with, it accepts
/// packets for any address.
pub proof fn every_interface_accepts_packets_for_any_address(
    config: InterfaceConfig,
    iface: InterfaceModel,
)
    ensures
        config.applied_to(iface).any_ip,
{
    lemma_applied(config, iface);
}

/// Whatever an interface is configured with, its medium stays, and it accepts packets for
/// any address.
proof fn lemma_applied(config: InterfaceConfig, iface: InterfaceModel)
    ensures
        config.applied_to(iface).any_ip,
        config.applied_to(iface).ip_mtu == iface.ip_mtu,
{
    let open = InterfaceModel { any_ip: true, ..iface };
    lemma_ipv4_addrs(open, iface, config.ipv4_addrs@);
    lemma_ipv6_addrs(
        with_ipv4_addrs(open, config.ipv4_addrs@),
        with_ipv4_addrs(iface, config.ipv4_addrs@),
        config.ipv6_addrs@,
    );
}

/// Addresses only change the address table, and that only by its room.
proof fn lemma_ipv4_addrs(a: InterfaceModel, b: InterfaceModel, addrs: Seq<(Ipv4Addr, u8)>)
    requires
        a.addrs.len() == b.addrs.len(),
        a.addr_capacity == b.addr_capacity,
    ensures
        with_ipv4_addrs(a, addrs) == (InterfaceModel {
            addrs: with_ipv4_addrs(a, addrs).addrs,
            ..a
        }),
        with_ipv4_addrs(b, addrs).addr_capacity == b.addr_capacity,
        with_ipv4_addrs(a, addrs).addrs.len() == with_ipv4_addrs(b, addrs).addrs.len(),
    decreases addrs.len(),
{
    if addrs.len() > 0 {
        lemma_ipv4_addrs(a, b, addrs.drop_last());
    }
}

/// Addresses only change the address table, and that only by its room.
proof fn lemma_ipv6_addrs(a: InterfaceModel, b: InterfaceModel, addrs: Seq<(Ipv6Addr, u8)>)
    requires
        a.addrs.len() == b.addrs.len(),
        a.addr_capacity == b.addr_capacity,
    ensures
        with_ipv6_addrs(a, addrs) == (InterfaceModel {
            addrs: with_ipv6_addrs(a, addrs).addrs,
            ..a
        }),
        with_ipv6_addrs(b, addrs).addr_capacity == b.addr_capacity,
        with_ipv6_addrs(a, addrs).addrs.len() == with_ipv6_addrs(b, addrs).addrs.len(),
    decreases addrs.len(),
{
    if addrs.len() > 0 {
        lemma_ipv6_addrs(a, b, addrs.drop_last());
    }
}

/// Accepting packets for any address leaves as much room for addresses.
proof fn lemma_any_ip_takes_no_room(
    id: InterfaceId,
    iface: InterfaceModel,
    v4: Seq<(Ipv4Addr, u8)>,
    v6: Seq<(Ipv6Addr, u8)>,
)
    ensures
        ({
            let open = InterfaceModel { any_ip: true, ..iface };
            &&& unassigned_ipv4(id, open, v4) == unassigned_ipv4(id, iface, v4)
            &&& unassigned_ipv6(id, with_ipv4_addrs(open, v4), v6) == unassigned_ipv6(
                id,
                with_ipv4_addrs(iface, v4),
                v6,
            )
        }),
    decreases v4.len() + v6.len(),
{
    let open = InterfaceModel { any_ip: true, ..iface };
    if v4.len() > 0 {
        lemma_any_ip_takes_no_room(id, iface, v4.drop_last(), Seq::empty());
        lemma_ipv4_addrs(open, iface, v4.drop_last());
    }
    lemma_ipv4_addrs(open, iface, v4);
    if v6.len() > 0 {
        lemma_any_ip_takes_no_room(id, iface, v4, v6.drop_last());
        lemma_ipv6_addrs(
            with_ipv4_addrs(open, v4),
            with_ipv4_addrs(iface, v4),
            v6.drop_last(),
        );
    }
}

/// The address can be assigned, and the prefix is no longer than the address.
pub open spec fn ipv4_assignable(addr: (Ipv4Addr, u8)) -> bool {
    IpAddress::Ipv4(addr.0).assignable() && addr.1 <= 32
}

/// The address can be assigned, and the prefix is no longer than the address.
pub open spec fn ipv6_assignable(addr: (Ipv6Addr, u8)) -> bool {
    IpAddress::Ipv6(addr.0).assignable() && addr.1 <= 128
}

/// With IPv4 addresses assigned, as far as there is room.
pub open spec fn with_ipv4_addrs(iface: InterfaceModel, addrs: Seq<(Ipv4Addr, u8)>) -> InterfaceModel
    decreases addrs.len(),
{
    if addrs.len() == 0 {
        iface
    } else {
        with_ipv4_addrs(iface, addrs.drop_last()).with_addr(
            Cidr { addr: IpAddress::Ipv4(addrs.last().0), prefix: addrs.last().1 },
        )
    }
}

/// With IPv6 addresses assigned, as far as there is room.
pub open spec fn with_ipv6_addrs(iface: InterfaceModel, addrs: Seq<(Ipv6Addr, u8)>) -> InterfaceModel
    decreases addrs.len(),
{
    if addrs.len() == 0 {
        iface
    } else {
        with_ipv6_addrs(iface, addrs.drop_last()).with_addr(
            Cidr { addr: IpAddress::Ipv6(addrs.last().0), prefix: addrs.last().1 },
        )
    }
}

/// An address that the table of an interface has no room for.
#[derive(Debug, Clone, Copy, PartialEq, Eq, Structural)]
pub struct Unassigned {
    pub interface: InterfaceId,
    pub addr: IpAddress,
    pub prefix: u8,
}

/// The IPv4 addresses that an interface has no room for.
pub open spec fn unassigned_ipv4(
    id: InterfaceId,
    iface: InterfaceModel,
    addrs: Seq<(Ipv4Addr, u8)>,
) -> Seq<Unassigned>
    decreases addrs.len(),
{
    if addrs.len() == 0 {
        Seq::empty()
    } else {
        let earlier = unassigned_ipv4(id, iface, addrs.drop_last());
        let (addr, prefix) = addrs.last();
        if with_ipv4_addrs(iface, addrs.drop_last()).has_room() {
            earlier
        } else {
            earlier.push(Unassigned { interface: id, addr: IpAddress::Ipv4(addr), prefix })
        }
    }
}

/// The IPv6 addresses that an interface has no room for.
pub open spec fn unassigned_ipv6(
    id: InterfaceId,
    iface: InterfaceModel,
    addrs: Seq<(Ipv6Addr, u8)>,
) -> Seq<Unassigned>
    decreases addrs.len(),
{
    if addrs.len() == 0 {
        Seq::empty()
    } else {
        let earlier = unassigned_ipv6(id, iface, addrs.drop_last());
        let (addr, prefix) = addrs.last();
        if with_ipv6_addrs(iface, addrs.drop_last()).has_room() {
            earlier
        } else {
            earlier.push(Unassigned { interface: id, addr: IpAddress::Ipv6(addr), prefix })
        }
    }
}

/// Configures a protocol interface, and wires it up with a device and an empty set
/// of sockets. Tells which addresses the interface has no room for.
pub fn build_interface(
    id: InterfaceId,
    settings: &InterfaceConfig,
    config: &NetstackConfig,
    iface: Interface,
    unassigned: &mut Vec<Unassigned>,
) -> (slot: Result<InterfaceSlot, NetstackError>)
    requires
        settings.fits(interface_model(iface)),
    ensures
        final(unassigned)@ == old(unassigned)@ + settings.unassigned(id, interface_model(iface)),
        slot matches Ok(s) && {
            &&& s.id == id
            &&& interface_model(s.iface) == settings.applied_to(interface_model(iface))
            &&& s.device@ == (DeviceModel {
                mtu: config.mtu,
                ingress: Seq::empty(),
                egress: Seq::empty(),
            })
            &&& sockets_of(s.sockets).dom() == Set::<SocketHandle>::empty()
            &&& growable(s.sockets)
            &&& s.mtu == config.mtu
            &&& s.tcp_buffer_size == config.tcp_buffer_size
        },
{
    let device = VirtualDevice::new(config.mtu);
    let mut iface = iface;
    // Transparent interception: packets for any destination are accepted.
    let ghost given = interface_model(iface);
    interface::set_any_ip(&mut iface, true);
    let ghost open = interface_model(iface);
    let ghost v4 = settings.ipv4_addrs@;
    let ghost v6 = settings.ipv6_addrs@;
    let mut i: usize = 0;
    proof {
        assert(v4.take(0) =~= Seq::empty());
        assert(unassigned@ =~= old(unassigned)@ + unassigned_ipv4(id, open, v4.take(0)));
    }
    while i < settings.ipv4_addrs.len()
        invariant
            i <= v4.len(),
            v4 == settings.ipv4_addrs@,
            settings.fits(given),
            open.ethernet == given.ethernet,
            interface_model(iface) == with_ipv4_addrs(open, v4.take(i as int)),
            interface_model(iface).ethernet == given.ethernet,
            unassigned@ == old(unassigned)@ + unassigned_ipv4(id, open, v4.take(i as int)),
        decreases v4.len() - i,
    {
        let (addr, prefix) = settings.ipv4_addrs[i];
        assert(ipv4_assignable(v4[i as int]));
        assert(v4.take(i + 1).drop_last() =~= v4.take(i as int));
        let addr = IpAddress::Ipv4(addr);
        if !interface::push_ip_addr(&mut iface, addr, prefix) {
            unassigned.push(Unassigned { interface: id, addr, prefix });
        }
        assert(unassigned@ =~= old(unassigned)@ + unassigned_ipv4(id, open, v4.take(i + 1)));
        i += 1;
    }
    assert(v4.take(i as int) =~= v4);
    let ghost addressed = interface_model(iface);
    let ghost earlier = unassigned@;
    let mut i: usize = 0;
    proof {
        assert(v6.take(0) =~= Seq::empty());
        assert(unassigned@ =~= earlier + unassigned_ipv6(id, addressed, v6.take(0)));
    }
    while i < settings.ipv6_addrs.len()
        invariant
            i <= v6.len(),
            v6 == settings.ipv6_addrs@,
            settings.fits(given),
            interface_model(iface) == with_ipv6_addrs(addressed, v6.take(i as int)),
            interface_model(iface).ethernet == given.ethernet,
            unassigned@ == earlier + unassigned_ipv6(id, addressed, v6.take(i as int)),
        decreases v6.len() - i,
    {
        let (addr, prefix) = settings.ipv6_addrs[i];
        assert(ipv6_assignable(v6[i as int]));
        assert(v6.take(i + 1).drop_last() =~= v6.take(i as int));
        let addr = IpAddress::Ipv6(addr);
        if !interface::push_ip_addr(&mut iface, addr, prefix) {
            unassigned.push(Unassigned { interface: id, addr, prefix });
        }
        assert(unassigned@ =~= earlier + unassigned_ipv6(id, addressed, v6.take(i + 1)));
        i += 1;
    }
    assert(v6.take(i as int) =~= v6);
    proof {
        lemma_any_ip_takes_no_room(id, given, v4, v6);
        assert(unassigned@ =~= old(unassigned)@ + settings.unassigned(id, given));
    }
    // Default routes, so that arbitrary destinations can always be assigned a source
    // address.
    if let Some(gw) = settings.ipv4_gateway {
        interface::add_default_ipv4_route(&mut iface, gw);
    } else if settings.ipv4_addrs.len() > 0 {
        interface::add_default_ipv4_route(&mut iface, settings.ipv4_addrs[0].0);
    }
    if let Some(gw) = settings.ipv6_gateway {
        interface::add_default_ipv6_route(&mut iface, gw);
    } else if settings.ipv6_addrs.len() > 0 {
        interface::add_default_ipv6_route(&mut iface, settings.ipv6_addrs[0].0);
    }
    Ok(
        InterfaceSlot::new(
            id,
            iface,
            device,
            socket_set::empty_set(),
            config.mtu,
            config.tcp_buffer_size,
        ),
    )
}

/// The addresses that the interfaces have no room for, one interface after the other.
pub open spec fn all_unassigned(
    interfaces: Seq<(InterfaceId, InterfaceConfig)>,
    ifaces: Seq<Interface>,
) -> Seq<Unassigned>
    decreases interfaces.len(),
{
    if interfaces.len() == 0 {
        Seq::empty()
    } else {
        let (id, config) = interfaces.last();
        all_unassigned(interfaces.drop_last(), ifaces.drop_last()) + config.unassigned(
            id,
            interface_model(ifaces.last()),
        )
    }
}

/// Programmatic, builder-style configuration of a stack.
pub struct NetstackBuilder {
    config: NetstackConfig,
    interfaces: Vec<(InterfaceId, InterfaceConfig)>,
}

impl Default for NetstackBuilder {
    fn default() -> (builder: NetstackBuilder)
        ensures
            builder.wf(),
            builder.config().is_default(),
            builder.interfaces().len() == 0,
    {
        NetstackBuilder { config: NetstackConfig::default(), interfaces: Vec::new() }
    }
}

impl NetstackBuilder {
    /// The parameters set so far.
    pub closed spec fn config(self) -> NetstackConfig {
        self.config
    }

    /// The interfaces registered so far, in the order in which they were.
    pub closed spec fn interfaces(self) -> Seq<(InterfaceId, InterfaceConfig)> {
        self.interfaces@
    }

    /// One of the registered interfaces has this identifier.
    pub open spec fn registered(self, id: InterfaceId) -> bool {
        exists|i: int| 0 <= i < self.interfaces().len() && (#[trigger] self.interfaces()[i]).0 == id
    }

    /// No two interfaces share an identifier.
    pub open spec fn wf(self) -> bool {
        forall|i: int, j: int|
            0 <= i < j < self.interfaces().len() ==> (#[trigger] self.interfaces()[i]).0 != (
            #[trigger] self.interfaces()[j]).0
    }

    /// Creates a builder with default parameters.
    pub fn new() -> (builder: NetstackBuilder)
        ensures
            builder.wf(),
            builder.config().is_default(),
            builder.interfaces().len() == 0,
    {
        NetstackBuilder::default()
    }

    /// Maximum IP packet size in bytes the device can carry. The stack splits
    /// egress larger than this and rejects larger ingress.
    pub fn mtu(self, mtu: usize) -> (builder: NetstackBuilder)
        ensures
            builder.config() == (NetstackConfig { mtu, ..self.config() }),
            builder.interfaces() == self.interfaces(),
    {
        let mut builder = self;
        builder.config.mtu = mtu;
        builder
    }

    /// TCP socket Rx/Tx buffer size in bytes, applied to every accepted TCP stream.
    pub fn tcp_buffer_size(self, size: usize) -> (builder: NetstackBuilder)
        ensures
            builder.config() == (NetstackConfig { tcp_buffer_size: size, ..self.config() }),
            builder.interfaces() == self.interfaces(),
    {
        let mut builder = self;
        builder.config.tcp_buffer_size = size;
        builder
    }

    /// Maximum number of simultaneous TCP sessions the stack tracks. Extra SYNs are
    /// not rejected but stay unallocated until one frees.
    pub fn tcp_max_connections(self, n: usize) -> (builder: NetstackBuilder)
        ensures
            builder.config() == (NetstackConfig { tcp_max_connections: n, ..self.config() }),
            builder.interfaces() == self.interfaces(),
    {
        let mut builder = self;
        builder.config.tcp_max_connections = n;
        builder
    }

    /// UDP session inactivity timeout: a session is reclaimed after this long with
    /// no traffic.
    pub fn udp_session_timeout(self, timeout: Duration) -> (builder: NetstackBuilder)
        ensures
            builder.config() == (NetstackConfig { udp_session_timeout: timeout, ..self.config() }),
            builder.interfaces() == self.interfaces(),
    {
        let mut builder = self;
        builder.config.udp_session_timeout = timeout;
        builder
    }

    /// Maximum number of simultaneous UDP pseudo-sessions.
    pub fn udp_max_sessions(self, n: usize) -> (builder: NetstackBuilder)
        ensures
            builder.config() == (NetstackConfig { udp_max_sessions: n, ..self.config() }),
            builder.interfaces() == self.interfaces(),
    {
        let mut builder = self;
        builder.config.udp_max_sessions = n;
        builder
    }

    /// Capacity of the ingress and egress message queues between the caller and the
    /// runner.
    pub fn channel_capacity(self, n: usize) -> (builder: NetstackBuilder)
        ensures
            builder.config() == (NetstackConfig { channel_capacity: n, ..self.config() }),
            builder.interfaces() == self.interfaces(),
    {
        let mut builder = self;
        builder.config.channel_capacity = n;
        builder
    }

    /// Minimum level of the events this stack emits.
    pub fn log_level(self, level: LogLevel) -> (builder: NetstackBuilder)
        ensures
            builder.config() == (NetstackConfig { log_level: level, ..self.config() }),
            builder.interfaces() == self.interfaces(),
    {
        let mut builder = self;
        builder.config.log_level = level;
        builder
    }

    /// Shape of each per-destination UDP socket buffer: max queued datagrams and max
    /// total payload bytes, respectively.
    pub fn udp_buffer(self, packets: usize, bytes: usize) -> (builder: NetstackBuilder)
        ensures
            builder.config() == (NetstackConfig {
                udp_buffer_packets: packets,
                udp_buffer_bytes: bytes,
                ..self.config()
            }),
            builder.interfaces() == self.interfaces(),
    {
        let mut builder = self;
        builder.config.udp_buffer_packets = packets;
        builder.config.udp_buffer_bytes = bytes;
        builder
    }

    /// Hard cap (bytes) on all buffer memory the stack may allocate; `None` =
    /// unlimited.
    pub fn max_buffer_bytes(self, limit: Option<usize>) -> (builder: NetstackBuilder)
        ensures
            builder.config() == (NetstackConfig { max_buffer_bytes: limit, ..self.config() }),
            builder.interfaces() == self.interfaces(),
    {
        let mut builder = self;
        builder.config.max_buffer_bytes = limit;
        builder
    }

    /// Registers a virtual interface with the stack.
    ///
    /// Returns an error if the interface identifier is already in use.
    pub fn add_interface(self, id: InterfaceId, settings: InterfaceConfig) -> (builder: Result<
        NetstackBuilder,
        NetstackError,
    >)
        ensures
            match builder {
                Ok(b) => {
                    &&& !self.registered(id)
                    &&& b.config() == self.config()
                    &&& b.interfaces() == self.interfaces().push((id, settings))
                    &&& self.wf() ==> b.wf()
                },
                Err(e) => self.registered(id) && e == NetstackError::InterfaceNotFound(id),
            },
    {
        let mut i: usize = 0;
        while i < self.interfaces.len()
            invariant
                i <= self.interfaces@.len(),
                forall|j: int| 0 <= j < i ==> (#[trigger] self.interfaces@[j]).0 != id,
            decreases self.interfaces@.len() - i,
        {
            if self.interfaces[i].0 == id {
                assert(self.interfaces()[i as int].0 == id);
                return Err(NetstackError::InterfaceNotFound(id));
            }
            i += 1;
        }
        let mut builder = self;
        builder.interfaces.push((id, settings));
        Ok(builder)
    }

    /// The parameters set so far.
    pub fn parameters(&self) -> (config: &NetstackConfig)
        ensures
            *config == self.config(),
    {
        &self.config
    }

    /// How many interfaces are registered.
    pub fn interface_count(&self) -> (n: usize)
        ensures
            n == self.interfaces().len(),
    {
        self.interfaces.len()
    }

    /// The configuration of every interface is valid.
    pub open spec fn valid(self) -> bool {
        forall|i: int|
            0 <= i < self.interfaces().len() ==> (#[trigger] self.interfaces()[i]).1.valid()
    }

    /// Whether the configuration of every interface is valid.
    pub fn is_valid(&self) -> (valid: bool)
        ensures
            valid == self.valid(),
    {
        let mut i: usize = 0;
        while i < self.interfaces.len()
            invariant
                i <= self.interfaces@.len(),
                forall|j: int| 0 <= j < i ==> (#[trigger] self.interfaces@[j]).1.valid(),
            decreases self.interfaces@.len() - i,
        {
            if !self.interfaces[i].1.is_valid() {
                assert(!self.interfaces()[i as int].1.valid());
                return false;
            }
            i += 1;
        }
        true
    }

    /// Builds the state of a stack without sessions, with one of the given protocol
    /// interfaces for each registered interface. Tells which addresses the interfaces have
    /// no room for.
    pub fn build(self, ifaces: Vec<Interface>, unassigned: &mut Vec<Unassigned>) -> (core: Result<
        Core,
        NetstackError,
    >)
        requires
            self.wf(),
            ifaces@.len() == self.interfaces().len(),
            forall|i: int|
                0 <= i < ifaces@.len() ==> self.interfaces()[i].1.fits(
                    interface_model(#[trigger] ifaces@[i]),
                ) && interface_model(ifaces@[i]).carries_segments(),
        ensures
            final(unassigned)@ == old(unassigned)@ + all_unassigned(self.interfaces(), ifaces@),
            core matches Ok(c) && {
                &&& c.wf()
                &&& c@.config == self.config()
                &&& c@.buffer_bytes == 0
                &&& c@.tcp == Map::<SessionKey, TcpEntry>::empty()
                &&& c@.udp == Map::<SessionKey, UdpEntry>::empty()
                &&& c@.shared == Map::<Destination, SharedSocket>::empty()
                &&& c@.queues == Map::<usize, QueueModel>::empty()
                &&& c@.sockets == Map::<SocketId, SocketModel>::empty()
                &&& c@.links.len() == self.interfaces().len()
                &&& forall|i: int|
                    0 <= i < c@.links.len() ==> {
                        let (id, config) = self.interfaces()[i];
                        &&& (#[trigger] c@.links[i]).id == id
                        &&& interface_model(c@.links[i].iface) == config.applied_to(
                            interface_model(ifaces@[i]),
                        )
                        &&& c@.links[i].device == (DeviceModel {
                            mtu: self.config().mtu,
                            ingress: Seq::empty(),
                            egress: Seq::empty(),
                        })
                    }
            },
    {
        let ghost given = ifaces@;
        let mut ifaces = ifaces;
        let mut core = Core {
            slots: Vec::new(),
            manager: SessionManager::new(),
            config: self.config,
            buffer_bytes: 0,
        };
        let mut i: usize = 0;
        assert(unassigned@ =~= old(unassigned)@ + all_unassigned(
            self.interfaces@.take(0),
            given.take(0),
        ));
        while i < self.interfaces.len()
            invariant
                i <= self.interfaces@.len(),
                self.wf(),
                given.len() == self.interfaces@.len(),
                forall|j: int|
                    0 <= j < given.len() ==> self.interfaces()[j].1.fits(
                        interface_model(#[trigger] given[j]),
                    ) && interface_model(given[j]).carries_segments(),
                unassigned@ == old(unassigned)@ + all_unassigned(
                    self.interfaces@.take(i as int),
                    given.take(i as int),
                ),
                ifaces@ == given.skip(i as int),
                core.slots@.len() == i,
                core.manager.wf(),
                core.manager.tcp@ == Map::<SessionKey, TcpEntry>::empty(),
                core.manager.udp@ == Map::<SessionKey, UdpEntry>::empty(),
                core.manager.udp_dst_sockets@ == Map::<Destination, SharedSocket>::empty(),
                core.manager.queues@ == Map::<usize, QueueModel>::empty(),
                core.config == self.config,
                core.buffer_bytes == 0,
                forall|j: int|
                    0 <= j < i ==> {
                        let (id, config) = self.interfaces@[j];
                        let s = #[trigger] core.slots@[j];
                        &&& s.id == id
                        &&& interface_model(s.iface) == config.applied_to(interface_model(given[j]))
                        &&& s.device@ == (DeviceModel {
                            mtu: self.config.mtu,
                            ingress: Seq::empty(),
                            egress: Seq::empty(),
                        })
                        &&& sockets_of(s.sockets).dom() == Set::<SocketHandle>::empty()
                        &&& growable(s.sockets)
                        &&& s.mtu == self.config.mtu
                        &&& s.tcp_buffer_size == self.config.tcp_buffer_size
                    },
            decreases self.interfaces@.len() - i,
        {
            let iface = ifaces.remove(0);
            assert(given.skip(i as int).remove(0) =~= given.skip(i + 1));
            assert(iface == given[i as int]);
            let id = self.interfaces[i].0;
            proof {
                let (a, b) = (self.interfaces@.take(i + 1), given.take(i + 1));
                assert(a.drop_last() =~= self.interfaces@.take(i as int));
                assert(b.drop_last() =~= given.take(i as int));
            }
            let ghost earlier = unassigned@;
            match build_interface(
                id,
                &self.interfaces[i].1,
                &self.config,
                iface,
                unassigned,
            ) {
                Ok(slot) => core.slots.push(slot),
                Err(e) => return Err(e),
            }
            assert(unassigned@ =~= old(unassigned)@ + all_unassigned(
                self.interfaces@.take(i + 1),
                given.take(i + 1),
            ));
            i += 1;
        }
        proof {
            let m = core@;
            assert(self.interfaces@.take(i as int) =~= self.interfaces@);
            assert(given.take(i as int) =~= given);
            assert forall|j: int| 0 <= j < m.links.len() implies interface_model(
                (#[trigger] m.links[j]).iface,
            ).carries_segments() by {
                lemma_applied(self.interfaces@[j].1, interface_model(given[j]));
                assert(m.links[j] == core.slots@[j]@);
            }
            assert(m.sockets =~= Map::<SocketId, SocketModel>::empty()) by {
                assert forall|p: SocketId, j: int| !socket_in_slot(core.slots@, p, j) by {
                    if socket_in_slot(core.slots@, p, j) {
                        assert(sockets_of(core.slots@[j].sockets).dom().contains(p.handle));
                    }
                }
            }
            assert forall|j: int| 0 <= j < m.links.len() implies #[trigger] m.links[j]
                == core.slots@[j]@ by {}
            assert forall|a: int, b: int| 0 <= a < b < core.slots@.len() implies (
            #[trigger] core.slots@[a]).id != (#[trigger] core.slots@[b]).id by {
                assert(self.interfaces()[a].0 != self.interfaces()[b].0);
            }
            assert(m.charged() == 0) by (nonlinear_arith)
                requires
                    m.tcp.len() == 0,
                    m.shared.len() == 0,
                    m.charged() == m.tcp.len() * m.config.tcp_cost() + m.shared.len()
                        * m.config.udp_cost(),
            ;
        }
        Ok(core)
    }
}

} // verus!
