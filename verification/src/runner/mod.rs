//! What drives a stack: packets go in, the engine runs between two passes over the
//! sessions, packets come out.

use smoltcp::iface::SocketHandle;
use vstd::prelude::*;

use crate::device::DeviceModel;
use crate::engine::clock::{self, distance};
use crate::engine::interface::{self, interface_model, poll_delay_of};
use crate::engine::payload::{all_octets, octets};
use crate::engine::socket_set::{sockets_of, SocketModel};
use crate::handle::{egress_contents, EgressPacket, IngressPacket};
use crate::model::{lemma_links_changed, LinkModel, SocketId, StackModel};
use crate::session::types::SessionKey;
use crate::state::{lemma_slot_changed, lemma_socket_in_slot, Core, InterfaceSlot};
use crate::InterfaceId;

pub mod post;
pub mod pre;

verus! {

/// How long to sleep where nothing is due, in microseconds: an hour.
pub const IDLE_SLEEP: u64 = 3_600_000_000;

impl StackModel {
    /// With a packet queued on an interface, unless it is larger than the device can
    /// carry.
    pub open spec fn with_ingress(self, interface: InterfaceId, data: Seq<u8>) -> StackModel {
        StackModel {
            links: self.links.map_values(
                |l: LinkModel|
                    if l.id == interface && data.len() <= l.device.mtu {
                        LinkModel {
                            device: DeviceModel { ingress: l.device.ingress.push(data), ..l.device },
                            ..l
                        }
                    } else {
                        l
                    },
            ),
            ..self
        }
    }

    /// With the devices' produced packets taken.
    pub open spec fn without_egress(self) -> StackModel {
        StackModel {
            links: self.links.map_values(
                |l: LinkModel|
                    LinkModel { device: DeviceModel { egress: Seq::empty(), ..l.device }, ..l },
            ),
            ..self
        }
    }
}

/// The packets that were produced, one interface after the other.
pub open spec fn produced(links: Seq<LinkModel>) -> Seq<(InterfaceId, Seq<u8>)>
    decreases links.len(),
{
    if links.len() == 0 {
        Seq::empty()
    } else {
        let link = links.last();
        produced(links.drop_last()) + link.device.egress.map_values(|p: Seq<u8>| (link.id, p))
    }
}

/// The shorter of two delays; `None` is no delay at all, which is longer than any.
pub open spec fn shorter(a: Option<u64>, b: Option<u64>) -> Option<u64> {
    match (a, b) {
        (Some(x), Some(y)) => Some(
            if x <= y {
                x
            } else {
                y
            },
        ),
        (Some(x), None) => Some(x),
        (None, y) => y,
    }
}

/// The shortest delay of all interfaces.
pub open spec fn shortest_delay(slots: Seq<InterfaceSlot>, now: i64) -> Option<u64>
    decreases slots.len(),
{
    if slots.len() == 0 {
        None
    } else {
        let slot = slots.last();
        shorter(
            shortest_delay(slots.drop_last(), now),
            poll_delay_of(slot.iface, now, slot.sockets),
        )
    }
}

/// The interfaces are the same, with the same settings and the same packets.
pub open spec fn same_settings(a: Seq<LinkModel>, b: Seq<LinkModel>) -> bool {
    &&& b.len() == a.len()
    &&& forall|i: int|
        0 <= i < a.len() ==> {
            &&& (#[trigger] b[i]).id == a[i].id
            &&& b[i].device == a[i].device
            &&& interface_model(b[i].iface) == interface_model(a[i].iface)
        }
}

/// Pushes a raw IP packet into the ingress queue of its interface. Tells whether
/// there is such an interface.
pub fn queue_ingress(core: &mut Core, packet: IngressPacket) -> (known: bool)
    requires
        old(core).wf(),
    ensures
        final(core).wf(),
        known == old(core)@.has_interface(packet.interface),
        final(core)@ == old(core)@.with_ingress(packet.interface, octets(packet.data)),
{
    let ghost m = core@;
    let ghost before = core.slots@;
    let ghost after = m.with_ingress(packet.interface, octets(packet.data));
    match core.slot_index(packet.interface) {
        Some(i) => {
            let _ = core.slots[i].device.push_ingress(packet.data);
            proof {
                assert(before[i as int]@ == m.links[i as int]);
                lemma_slot_changed(before, core.slots@, i as int, arbitrary());
                assert(core@.links =~= after.links) by {
                    assert forall|j: int| 0 <= j < m.links.len() && j != i implies (
                    #[trigger] m.links[j]).id != packet.interface by {}
                }
                lemma_links_changed(m, core@);
            }
            true
        },
        None => {
            proof {
                assert(core@.links =~= after.links) by {
                    assert forall|j: int| 0 <= j < m.links.len() implies (#[trigger] m.links[j]).id
                        != packet.interface by {}
                }
            }
            false
        },
    }
}

/// How long it is until a UDP session that was active at `last` has been silent for the
/// timeout, in microseconds, as far as that can be counted.
pub open spec fn until_silent(now: int, last: int, timeout: nat) -> u64 {
    if distance(now, last) >= timeout {
        0
    } else if last + timeout - now <= u64::MAX {
        (last + timeout - now) as u64
    } else {
        u64::MAX
    }
}

impl StackModel {
    /// How long it is until a UDP session has been silent for the timeout.
    pub open spec fn until_silent(self, key: SessionKey, now: i64) -> u64 {
        until_silent(now as int, self.udp[key].last_activity as int, self.config.udp_timeout())
    }

    /// `delay` is how long it is until the engine is due after `engine`, or a UDP session
    /// has been silent for the timeout, whichever comes first.
    pub open spec fn is_due_after(self, delay: Option<u64>, engine: Option<u64>, now: i64) -> bool {
        match delay {
            Some(d) => {
                &&& engine matches Some(e) ==> d <= e
                &&& forall|k: SessionKey| #[trigger]
                    self.udp.contains_key(k) ==> d <= self.until_silent(k, now)
                &&& engine == Some(d) || exists|k: SessionKey| #[trigger]
                    self.udp.contains_key(k) && d == self.until_silent(k, now)
            },
            None => engine is None && forall|k: SessionKey| !#[trigger] self.udp.contains_key(k),
        }
    }
}

/// How long it is until a UDP session that was active at `last` has been silent for the
/// timeout.
fn silence_left(now: i64, last: i64, timeout: u64) -> (micros: u64)
    requires
        now >= 0,
        last >= 0,
    ensures
        micros == until_silent(now as int, last as int, timeout as nat),
{
    let silent: u64 = clock::elapsed(now, last);
    if silent >= timeout {
        0
    } else if now >= last {
        timeout - silent
    } else {
        timeout.saturating_add(silent)
    }
}

/// How long it is until the engine is due, in microseconds; `None` if it is not due at
/// all. The engine takes note of the time.
fn engine_delay(core: &mut Core, now: i64) -> (delay: Option<u64>)
    requires
        old(core).wf(),
        now >= 0,
    ensures
        final(core).wf(),
        final(core).manager == old(core).manager,
        delay == shortest_delay(old(core).slots@, now),
        final(core)@ == (StackModel { links: final(core)@.links, ..old(core)@ }),
        same_settings(old(core)@.links, final(core)@.links),
{
    let ghost m = core@;
    let ghost slots = core.slots@;
    let n: usize = core.slots.len();
    let mut shortest: Option<u64> = None;
    let mut i: usize = 0;
    assert(slots.take(0) =~= Seq::empty());
    while i < n
        invariant
            m == old(core)@,
            slots == old(core).slots@,
            core.wf(),
            core.manager == old(core).manager,
            now >= 0,
            n == core.slots@.len(),
            n == slots.len(),
            i <= n,
            core@ == (StackModel { links: core@.links, ..m }),
            forall|j: int| i <= j < n ==> core.slots@[j] == slots[j],
            same_settings(m.links, core@.links),
            shortest == shortest_delay(slots.take(i as int), now),
        decreases n - i,
    {
        let ghost before = *core;
        assert(core.slots@[i as int] == slots[i as int]);
        assert(core@.links[i as int] == core.slots@[i as int]@);
        assert forall|h: SocketHandle| #[trigger]
            sockets_of(core.slots@[i as int].sockets).contains_key(h) implies (sockets_of(
            core.slots@[i as int].sockets,
        )[h] matches SocketModel::Tcp(t) ==> t.timeable()) by {
            lemma_socket_in_slot(core.slots@, i as int, h);
            assert(core@.owned(SocketId { interface: core.slots@[i as int].id, handle: h }));
        }
        let slot = &mut core.slots[i];
        let delay = interface::poll_delay(&mut slot.iface, now, &slot.sockets);
        proof {
            lemma_slot_changed(before.slots@, core.slots@, i as int, arbitrary());
            assert(core@ =~= StackModel { links: core@.links, ..before@ });
            assert(same_settings(before@.links, core@.links));
            lemma_links_changed(before@, core@);
            assert(slots.take(i + 1).drop_last() =~= slots.take(i as int));
        }
        shortest =
        match (shortest, delay) {
            (Some(x), Some(y)) => Some(
                if x <= y {
                    x
                } else {
                    y
                },
            ),
            (Some(x), None) => Some(x),
            (None, y) => y,
        };
        i += 1;
    }
    assert(slots.take(n as int) =~= slots);
    shortest
}

/// Computes how long the runner may sleep until the next poll is due, in microseconds;
/// `None` if none is due at all. A poll is due when the engine has something to do, and
/// when a UDP session has been silent for the timeout.
pub fn next_poll_delay(core: &mut Core, now: i64) -> (delay: Option<u64>)
    requires
        old(core).wf(),
        old(core).config.measurable(),
        now >= 0,
    ensures
        final(core).wf(),
        old(core)@.is_due_after(delay, shortest_delay(old(core).slots@, now), now),
        final(core)@ == (StackModel { links: final(core)@.links, ..old(core)@ }),
        same_settings(old(core)@.links, final(core)@.links),
{
    let ghost m = core@;
    let engine = engine_delay(core, now);
    let timeout: u64 = clock::span_micros(core.config.udp_session_timeout);
    let ghost keys = core.manager.udp.keys();
    let n: usize = core.manager.udp.len();
    let mut shortest: Option<u64> = engine;
    let mut i: usize = 0;
    while i < n
        invariant
            core.wf(),
            core@.udp == m.udp,
            core@.config == m.config,
            now >= 0,
            timeout == m.config.udp_timeout(),
            keys == core.manager.udp.keys(),
            n == keys.len(),
            i <= n,
            i == 0 ==> shortest == engine,
            i > 0 ==> shortest is Some,
            engine is Some ==> shortest is Some && shortest->0 <= engine->0,
            forall|j: int|
                0 <= j < i ==> shortest->0 <= m.until_silent(#[trigger] keys[j], now),
            shortest == engine || exists|k: SessionKey| #[trigger]
                m.udp.contains_key(k) && shortest == Some(m.until_silent(k, now)),
        decreases n - i,
    {
        let key = core.manager.udp.key_at(i);
        assert(m.udp.contains_key(key));
        if let Some(entry) = core.manager.udp.get(&key) {
            let left: u64 = silence_left(now, entry.last_activity, timeout);
            assert(left == m.until_silent(key, now));
            let sooner: bool = match shortest {
                Some(s) => left < s,
                None => true,
            };
            if sooner {
                shortest = Some(left);
            }
        }
        i += 1;
    }
    proof {
        core.manager.udp.lemma_keys();
        assert forall|k: SessionKey| #[trigger] m.udp.contains_key(k) implies shortest is Some
            && shortest->0 <= m.until_silent(k, now) by {
            assert(keys.contains(k));
            assert(keys[keys.index_of(k)] == k);
        }
    }
    shortest
}

/// How long the runner sleeps, in microseconds, unless something wakes it: for the
/// delay until the next poll, or for an hour where none is due.
pub fn sleep_micros(delay: Option<u64>) -> (micros: u64)
    ensures
        micros == match delay {
            Some(d) => d,
            None => IDLE_SLEEP,
        },
{
    match delay {
        Some(d) => d,
        None => IDLE_SLEEP,
    }
}

/// Takes the packets that the stack has produced, one interface after the other,
/// those of an interface in the order in which they were produced.
pub fn collect_egress(core: &mut Core) -> (packets: Vec<EgressPacket>)
    requires
        old(core).wf(),
    ensures
        final(core).wf(),
        egress_contents(packets@) == produced(old(core)@.links),
        final(core)@ == old(core)@.without_egress(),
{
    let ghost m = core@;
    let ghost goal = m.without_egress();
    let n: usize = core.slots.len();
    let mut packets: Vec<EgressPacket> = Vec::new();
    let mut i: usize = 0;
    proof {
        assert(m.links.take(0) =~= Seq::empty());
        assert(egress_contents(packets@) =~= Seq::empty());
    }
    while i < n
        invariant
            m == old(core)@,
            goal == m.without_egress(),
            core.wf(),
            n == core.slots@.len(),
            n == m.links.len(),
            i <= n,
            core@ == (StackModel { links: core@.links, ..m }),
            forall|j: int|
                0 <= j < n ==> #[trigger] core@.links[j] == if j < i {
                    goal.links[j]
                } else {
                    m.links[j]
                },
            egress_contents(packets@) == produced(m.links.take(i as int)),
        decreases n - i,
    {
        let ghost before = *core;
        let ghost earlier = packets@;
        let ghost link = m.links[i as int];
        assert(before@.links[i as int] == core.slots@[i as int]@);
        let id = core.slots[i].id;
        let mut drained = core.slots[i].device.drain_egress();
        proof {
            lemma_slot_changed(before.slots@, core.slots@, i as int, arbitrary());
            assert(core@ =~= StackModel { links: core@.links, ..before@ });
            assert(core@.links[i as int] =~= goal.links[i as int]);
            assert forall|j: int| 0 <= j < n && j != i implies #[trigger] core@.links[j]
                == before@.links[j] by {}
            lemma_links_changed(before@, core@);
        }
        let ghost all = drained@;
        let count: usize = drained.len();
        let mut j: usize = 0;
        while j < count
            invariant
                j <= count,
                count == all.len(),
                drained@ == all.skip(j as int),
                id == link.id,
                egress_contents(packets@) == egress_contents(earlier) + all_octets(
                    all.take(j as int),
                ).map_values(|p: Seq<u8>| (link.id, p)),
            decreases count - j,
        {
            let ghost pushed = packets@;
            let data = drained.remove(0);
            packets.push(EgressPacket { interface_id: id, data });
            proof {
                let tag = |p: Seq<u8>| (link.id, p);
                assert(all.skip(j as int).remove(0) =~= all.skip(j + 1));
                assert(egress_contents(packets@) =~= egress_contents(pushed).push(
                    (link.id, octets(data)),
                ));
                assert(all_octets(all.take(j + 1)) =~= all_octets(all.take(j as int)).push(
                    octets(data),
                ));
                assert(all_octets(all.take(j + 1)).map_values(tag) =~= all_octets(
                    all.take(j as int),
                ).map_values(tag).push((link.id, octets(data))));
                assert(egress_contents(packets@) =~= egress_contents(earlier) + all_octets(
                    all.take(j + 1),
                ).map_values(tag));
            }
            j += 1;
        }
        proof {
            assert(all.take(count as int) =~= all);
            assert(m.links.take(i + 1).drop_last() =~= m.links.take(i as int));
        }
        i += 1;
    }
    proof {
        assert(m.links.take(n as int) =~= m.links);
        assert(core@.links =~= goal.links);
    }
    packets
}

} // verus!
