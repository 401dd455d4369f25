//! The mutable state of a stack.

use smoltcp::iface::{Interface, SocketHandle, SocketSet};
use smoltcp::socket::{tcp, udp};
use vstd::prelude::*;

use crate::builder::NetstackConfig;
use crate::device::VirtualDevice;
use crate::engine::socket_set::{self, growable, sockets_of, SocketModel};
use crate::engine::tcp_socket::tcp_model;
use crate::engine::udp_socket::udp_model;
use crate::model::{lemma_links_changed, LinkModel, SocketId, StackModel};
use crate::session::manager::SessionManager;
use crate::InterfaceId;

verus! {

/// One serviced virtual interface: its protocol side over a [`VirtualDevice`], and
/// its own set of sockets.
pub struct InterfaceSlot {
    pub id: InterfaceId,
    pub iface: Interface,
    pub device: VirtualDevice,
    pub sockets: SocketSet<'static>,
    pub mtu: usize,
    pub tcp_buffer_size: usize,
}

impl InterfaceSlot {
    pub open spec fn view(&self) -> LinkModel {
        LinkModel { id: self.id, iface: self.iface, device: self.device@ }
    }

    pub fn new(
        id: InterfaceId,
        iface: Interface,
        device: VirtualDevice,
        sockets: SocketSet<'static>,
        mtu: usize,
        tcp_buffer_size: usize,
    ) -> (slot: InterfaceSlot)
        ensures
            slot == (InterfaceSlot { id, iface, device, sockets, mtu, tcp_buffer_size }),
    {
        InterfaceSlot { id, iface, device, sockets, mtu, tcp_buffer_size }
    }

    pub fn mtu(&self) -> (mtu: usize)
        ensures
            mtu == self.mtu,
    {
        self.mtu
    }

    pub fn buffer_size(&self) -> (size: usize)
        ensures
            size == self.tcp_buffer_size,
    {
        self.tcp_buffer_size
    }
}

/// The state that the runner and the streams share.
pub struct Core {
    pub slots: Vec<InterfaceSlot>,
    pub manager: SessionManager,
    pub config: NetstackConfig,
    /// Current count of socket buffer bytes that the stack has allocated.
    pub buffer_bytes: usize,
}

/// Slot `i` has this socket.
pub open spec fn socket_in_slot(slots: Seq<InterfaceSlot>, id: SocketId, i: int) -> bool {
    &&& 0 <= i < slots.len()
    &&& slots[i].id == id.interface
    &&& sockets_of(slots[i].sockets).contains_key(id.handle)
}

/// The sockets of all interfaces.
pub open spec fn all_sockets(slots: Seq<InterfaceSlot>) -> Map<SocketId, SocketModel> {
    Map::new(
        |p: SocketId| exists|i: int| socket_in_slot(slots, p, i),
        |p: SocketId|
            sockets_of(slots[choose|i: int| socket_in_slot(slots, p, i)].sockets)[p.handle],
    )
}

/// No two interfaces share an identifier.
pub open spec fn distinct_ids(slots: Seq<InterfaceSlot>) -> bool {
    forall|i: int, j: int|
        0 <= i < j < slots.len() ==> (#[trigger] slots[i]).id != (#[trigger] slots[j]).id
}

/// The interfaces are the same, at the same positions.
pub open spec fn same_ids(a: Seq<InterfaceSlot>, b: Seq<InterfaceSlot>) -> bool {
    &&& a.len() == b.len()
    &&& forall|i: int| 0 <= i < a.len() ==> (#[trigger] b[i]).id == a[i].id
}

/// A socket of an interface is among the sockets of all interfaces.
pub(crate) proof fn lemma_socket_in_slot(slots: Seq<InterfaceSlot>, i: int, handle: SocketHandle)
    requires
        distinct_ids(slots),
        0 <= i < slots.len(),
    ensures
        ({
            let p = SocketId { interface: slots[i].id, handle };
            &&& all_sockets(slots).contains_key(p) <==> sockets_of(slots[i].sockets).contains_key(
                handle,
            )
            &&& all_sockets(slots).contains_key(p) ==> all_sockets(slots)[p] == sockets_of(
                slots[i].sockets,
            )[handle]
        }),
{
    let p = SocketId { interface: slots[i].id, handle };
    if sockets_of(slots[i].sockets).contains_key(handle) {
        assert(socket_in_slot(slots, p, i));
    }
}

/// Slots `a` became `b` by a change of slot `i`: this socket stays as it was, if it
/// is not of that slot, and else is as it is in that slot.
spec fn socket_follows(
    a: Seq<InterfaceSlot>,
    b: Seq<InterfaceSlot>,
    i: int,
    q: SocketId,
) -> bool {
    if q.interface != a[i].id {
        &&& all_sockets(b).contains_key(q) <==> all_sockets(a).contains_key(q)
        &&& all_sockets(a).contains_key(q) ==> all_sockets(b)[q] == all_sockets(a)[q]
    } else {
        &&& all_sockets(a).contains_key(q) <==> sockets_of(a[i].sockets).contains_key(q.handle)
        &&& all_sockets(a).contains_key(q) ==> all_sockets(a)[q] == sockets_of(
            a[i].sockets,
        )[q.handle]
        &&& all_sockets(b).contains_key(q) <==> sockets_of(b[i].sockets).contains_key(q.handle)
        &&& all_sockets(b).contains_key(q) ==> all_sockets(b)[q] == sockets_of(
            b[i].sockets,
        )[q.handle]
    }
}

proof fn lemma_socket_elsewhere(a: Seq<InterfaceSlot>, b: Seq<InterfaceSlot>, i: int, q: SocketId)
    requires
        distinct_ids(a),
        0 <= i < a.len(),
        b == a.update(i, b[i]),
        b[i].id == a[i].id,
    ensures
        distinct_ids(b),
        socket_follows(a, b, i, q),
{
    if q.interface != a[i].id {
        if exists|j: int| socket_in_slot(a, q, j) {
            let j = choose|j: int| socket_in_slot(a, q, j);
            assert(socket_in_slot(b, q, j));
        }
        if exists|j: int| socket_in_slot(b, q, j) {
            let j = choose|j: int| socket_in_slot(b, q, j);
            assert(socket_in_slot(a, q, j));
        }
    } else {
        lemma_socket_in_slot(a, i, q.handle);
        lemma_socket_in_slot(b, i, q.handle);
    }
}

/// What happens to the sockets of one interface happens to them among all.
pub(crate) proof fn lemma_slot_changed(
    a: Seq<InterfaceSlot>,
    b: Seq<InterfaceSlot>,
    i: int,
    handle: SocketHandle,
)
    requires
        distinct_ids(a),
        0 <= i < a.len(),
        b == a.update(i, b[i]),
        b[i].id == a[i].id,
    ensures
        distinct_ids(b),
        ({
            let p = SocketId { interface: a[i].id, handle };
            let before = sockets_of(a[i].sockets);
            let after = sockets_of(b[i].sockets);
            &&& after == before.insert(handle, after[handle]) ==> all_sockets(b) == all_sockets(
                a,
            ).insert(p, after[handle])
            &&& after == before.remove(handle) ==> all_sockets(b) == all_sockets(a).remove(p)
            &&& after == before ==> all_sockets(b) == all_sockets(a)
        }),
{
    let p = SocketId { interface: a[i].id, handle };
    let before = sockets_of(a[i].sockets);
    let after = sockets_of(b[i].sockets);
    assert forall|q: SocketId| socket_follows(a, b, i, q) by {
        lemma_socket_elsewhere(a, b, i, q);
    }
    lemma_socket_elsewhere(a, b, i, p);
    assert(forall|q: SocketId| #[trigger]
        all_sockets(b).contains_key(q) ==> socket_follows(a, b, i, q));
    assert(forall|q: SocketId| #[trigger]
        all_sockets(a).contains_key(q) ==> socket_follows(a, b, i, q));
    if after == before.insert(handle, after[handle]) {
        assert(all_sockets(b) =~= all_sockets(a).insert(p, after[handle]));
    }
    if after == before.remove(handle) {
        assert(all_sockets(b) =~= all_sockets(a).remove(p));
    }
    if after == before {
        assert(all_sockets(b) =~= all_sockets(a));
    }
}

impl Core {
    pub open spec fn view(&self) -> StackModel {
        StackModel {
            links: self.slots@.map_values(|s: InterfaceSlot| s@),
            sockets: all_sockets(self.slots@),
            tcp: self.manager.tcp@,
            udp: self.manager.udp@,
            shared: self.manager.udp_dst_sockets@,
            queues: self.manager.queues@,
            config: self.config,
            buffer_bytes: self.buffer_bytes as nat,
        }
    }

    /// Slots and tables are in order, and there is always room for one more socket.
    pub open spec fn parts_wf(&self) -> bool {
        &&& self.manager.wf()
        &&& distinct_ids(self.slots@)
        &&& forall|i: int|
            0 <= i < self.slots@.len() ==> {
                &&& (#[trigger] self.slots@[i]).mtu == self.config.mtu
                &&& self.slots@[i].tcp_buffer_size == self.config.tcp_buffer_size
                &&& growable(self.slots@[i].sockets)
            }
    }

    /// The state is consistent.
    pub open spec fn wf(&self) -> bool {
        self.parts_wf() && self@.wf()
    }

    /// The position of an interface.
    pub(crate) fn slot_index(&self, id: InterfaceId) -> (index: Option<usize>)
        ensures
            match index {
                Some(i) => i < self.slots@.len() && self.slots@[i as int].id == id
                    && self@.has_interface(id),
                None => !self@.has_interface(id),
            },
    {
        let mut i: usize = 0;
        while i < self.slots.len()
            invariant
                i <= self.slots@.len(),
                forall|j: int| 0 <= j < i ==> (#[trigger] self.slots@[j]).id != id,
            decreases self.slots@.len() - i,
        {
            if self.slots[i].id == id {
                assert(self@.links[i as int].id == id);
                return Some(i);
            }
            i += 1;
        }
        assert forall|j: int| 0 <= j < self@.links.len() implies (#[trigger] self@.links[j]).id
            != id by {
            assert(self@.links[j] == self.slots@[j]@);
        }
        None
    }

    /// An interface.
    pub fn slot(&self, id: InterfaceId) -> (slot: Option<&InterfaceSlot>)
        ensures
            match slot {
                Some(s) => s.id == id && self.slots@.contains(*s),
                None => !self@.has_interface(id),
            },
    {
        match self.slot_index(id) {
            Some(i) => Some(&self.slots[i]),
            None => None,
        }
    }

    /// An interface, to be changed.
    pub fn slot_mut(&mut self, id: InterfaceId) -> (slot: Option<&mut InterfaceSlot>)
        ensures
            match slot {
                Some(s) => exists|i: int|
                    {
                        &&& 0 <= i < old(self).slots@.len()
                        &&& #[trigger] old(self).slots@[i] == *s
                        &&& s.id == id
                        &&& final(self).slots@ == old(self).slots@.update(i, *final(s))
                    },
                None => !old(self)@.has_interface(id) && final(self).slots == old(self).slots,
            },
            final(self).manager == old(self).manager,
            final(self).config == old(self).config,
            final(self).buffer_bytes == old(self).buffer_bytes,
    {
        match self.slot_index(id) {
            Some(i) => {
                let ghost before = self.slots@;
                let slot = &mut self.slots[i];
                assert(before[i as int] == *slot);
                Some(slot)
            },
            None => None,
        }
    }

    /// Reserves `bytes` of buffer budget, honoring `config.max_buffer_bytes` when
    /// set. Returns `false` and does not charge when the cap would be exceeded, or the
    /// total could not be counted.
    pub fn reserve_buffer(&mut self, bytes: usize) -> (reserved: bool)
        ensures
            reserved == old(self).config.admits(old(self).buffer_bytes as nat + bytes as nat),
            *final(self) == (Core {
                buffer_bytes: if reserved {
                    (old(self).buffer_bytes + bytes) as usize
                } else {
                    old(self).buffer_bytes
                },
                ..*old(self)
            }),
    {
        let total = self.buffer_bytes.checked_add(bytes);
        if !self.config.is_within_cap(total) {
            return false;
        }
        if let Some(total) = total {
            self.buffer_bytes = total;
        }
        true
    }

    /// Releases `bytes` of buffer budget (saturating; never negative).
    pub fn release_buffer(&mut self, bytes: usize)
        ensures
            *final(self) == (Core {
                buffer_bytes: if old(self).buffer_bytes >= bytes {
                    (old(self).buffer_bytes - bytes) as usize
                } else {
                    0
                },
                ..*old(self)
            }),
    {
        self.buffer_bytes = self.buffer_bytes.saturating_sub(bytes);
    }

    /// Lends a TCP socket.
    pub(crate) fn tcp_socket_mut(&mut self, i: usize, handle: SocketHandle) -> (socket:
        &mut tcp::Socket<'static>)
        requires
            old(self).parts_wf(),
            i < old(self).slots@.len(),
            ({
                let p = SocketId { interface: old(self).slots@[i as int].id, handle };
                old(self)@.sockets.contains_key(p) && old(self)@.sockets[p] is Tcp
            }),
        ensures
            ({
                let p = SocketId { interface: old(self).slots@[i as int].id, handle };
                &&& SocketModel::Tcp(tcp_model(*socket)) == old(self)@.sockets[p]
                &&& final(self)@ == old(self)@.with_socket(
                    p,
                    SocketModel::Tcp(tcp_model(*final(socket))),
                )
            }),
            final(self).parts_wf(),
            final(self).manager == old(self).manager,
            same_ids(old(self).slots@, final(self).slots@),
    {
        let ghost before = self.slots@;
        proof {
            lemma_socket_in_slot(before, i as int, handle);
        }
        let slot = &mut self.slots[i];
        let socket = socket_set::tcp_mut(&mut slot.sockets, handle);
        proof {
            let after = after_borrow(self).slots@;
            lemma_slot_changed(before, after, i as int, handle);
            assert(after_borrow(self)@ =~= old(self)@.with_socket(
                SocketId { interface: before[i as int].id, handle },
                SocketModel::Tcp(tcp_model(*final(socket))),
            ));
        }
        socket
    }

    /// Lends a UDP socket.
    pub(crate) fn udp_socket_mut(&mut self, i: usize, handle: SocketHandle) -> (socket:
        &mut udp::Socket<'static>)
        requires
            old(self).parts_wf(),
            i < old(self).slots@.len(),
            ({
                let p = SocketId { interface: old(self).slots@[i as int].id, handle };
                old(self)@.sockets.contains_key(p) && old(self)@.sockets[p] is Udp
            }),
        ensures
            ({
                let p = SocketId { interface: old(self).slots@[i as int].id, handle };
                &&& SocketModel::Udp(udp_model(*socket)) == old(self)@.sockets[p]
                &&& final(self)@ == old(self)@.with_socket(
                    p,
                    SocketModel::Udp(udp_model(*final(socket))),
                )
            }),
            final(self).parts_wf(),
            final(self).manager == old(self).manager,
            same_ids(old(self).slots@, final(self).slots@),
    {
        let ghost before = self.slots@;
        proof {
            lemma_socket_in_slot(before, i as int, handle);
        }
        let slot = &mut self.slots[i];
        let socket = socket_set::udp_mut(&mut slot.sockets, handle);
        proof {
            let after = after_borrow(self).slots@;
            lemma_slot_changed(before, after, i as int, handle);
            assert(after_borrow(self)@ =~= old(self)@.with_socket(
                SocketId { interface: before[i as int].id, handle },
                SocketModel::Udp(udp_model(*final(socket))),
            ));
        }
        socket
    }

    /// Adds a TCP socket to an interface.
    pub(crate) fn add_tcp_socket(&mut self, i: usize, socket: tcp::Socket<'static>) -> (handle:
        SocketHandle)
        requires
            old(self).parts_wf(),
            i < old(self).slots@.len(),
        ensures
            ({
                let p = SocketId { interface: old(self).slots@[i as int].id, handle };
                &&& !old(self)@.sockets.contains_key(p)
                &&& final(self)@ == old(self)@.with_socket(
                    p,
                    SocketModel::Tcp(tcp_model(socket)),
                )
            }),
            final(self).parts_wf(),
            final(self).manager == old(self).manager,
            same_ids(old(self).slots@, final(self).slots@),
    {
        let ghost before = self.slots@;
        let handle = socket_set::add_tcp(&mut self.slots[i].sockets, socket);
        proof {
            lemma_socket_in_slot(before, i as int, handle);
            lemma_slot_changed(before, self.slots@, i as int, handle);
            assert(self@ =~= old(self)@.with_socket(
                SocketId { interface: before[i as int].id, handle },
                SocketModel::Tcp(tcp_model(socket)),
            ));
        }
        handle
    }

    /// Adds a UDP socket to an interface.
    pub(crate) fn add_udp_socket(&mut self, i: usize, socket: udp::Socket<'static>) -> (handle:
        SocketHandle)
        requires
            old(self).parts_wf(),
            i < old(self).slots@.len(),
        ensures
            ({
                let p = SocketId { interface: old(self).slots@[i as int].id, handle };
                &&& !old(self)@.sockets.contains_key(p)
                &&& final(self)@ == old(self)@.with_socket(
                    p,
                    SocketModel::Udp(udp_model(socket)),
                )
            }),
            final(self).parts_wf(),
            final(self).manager == old(self).manager,
            same_ids(old(self).slots@, final(self).slots@),
    {
        let ghost before = self.slots@;
        let handle = socket_set::add_udp(&mut self.slots[i].sockets, socket);
        proof {
            lemma_socket_in_slot(before, i as int, handle);
            lemma_slot_changed(before, self.slots@, i as int, handle);
            assert(self@ =~= old(self)@.with_socket(
                SocketId { interface: before[i as int].id, handle },
                SocketModel::Udp(udp_model(socket)),
            ));
        }
        handle
    }

    /// Takes a socket out of an interface.
    pub(crate) fn remove_socket(&mut self, i: usize, handle: SocketHandle)
        requires
            old(self).parts_wf(),
            i < old(self).slots@.len(),
            old(self)@.sockets.contains_key(
                SocketId { interface: old(self).slots@[i as int].id, handle },
            ),
        ensures
            final(self)@ == (StackModel {
                sockets: old(self)@.sockets.remove(
                    SocketId { interface: old(self).slots@[i as int].id, handle },
                ),
                ..old(self)@
            }),
            final(self).parts_wf(),
            final(self).manager == old(self).manager,
            same_ids(old(self).slots@, final(self).slots@),
    {
        let ghost before = self.slots@;
        proof {
            lemma_socket_in_slot(before, i as int, handle);
        }
        socket_set::remove(&mut self.slots[i].sockets, handle);
        proof {
            lemma_slot_changed(before, self.slots@, i as int, handle);
            assert(self@ =~= StackModel {
                sockets: old(self)@.sockets.remove(
                    SocketId { interface: before[i as int].id, handle },
                ),
                ..old(self)@
            });
        }
    }

    /// Takes a packet out of those that wait on an interface.
    pub(crate) fn drop_packet(&mut self, i: usize, n: usize)
        requires
            old(self).wf(),
            i < old(self).slots@.len(),
            n < old(self)@.links[i as int].device.ingress.len(),
        ensures
            final(self).wf(),
            final(self)@ == (StackModel {
                links: old(self)@.links.update(
                    i as int,
                    old(self)@.links[i as int].with_queue(
                        old(self)@.links[i as int].device.ingress.remove(n as int),
                    ),
                ),
                ..old(self)@
            }),
    {
        let ghost m = self@;
        let ghost before = self.slots@;
        let ghost link = m.links[i as int];
        assert(link == before[i as int]@);
        self.slots[i].device.drop_ingress(n);
        proof {
            lemma_slot_changed(before, self.slots@, i as int, arbitrary());
            assert(self@.links =~= m.links.update(
                i as int,
                link.with_queue(link.device.ingress.remove(n as int)),
            ));
            assert forall|j: int| 0 <= j < link.device.ingress.len() - 1 implies (
            #[trigger] link.device.ingress.remove(n as int)[j]).len() <= m.config.mtu by {
                if j < n {
                    assert(m.links[i as int].device.ingress[j].len() <= m.config.mtu);
                } else {
                    assert(m.links[i as int].device.ingress[j + 1].len() <= m.config.mtu);
                }
            }
            lemma_links_changed(m, self@);
        }
    }
}

} // verus!
