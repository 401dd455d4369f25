//! What precedes a run of the engine.

use smoltcp::iface::SocketHandle;
use vstd::prelude::*;

use crate::addr::IpEndpoint;
use crate::admission::{
    lemma_nothing_opened, lemma_opened_links, lemma_opened_tcp, lemma_opened_then,
    lemma_opened_udp, lemma_queued, lemma_udp_accepted, opened_by, pre_passed, queued, queued_on,
    same_but_ingress, udp_accepted, Admission, Gate, Refusal, Refused, Verdict,
};
use crate::engine::payload;
use crate::engine::tcp_socket;
use crate::engine::udp_socket;
use crate::flow::{flow_of, parse_l4, L4};
use crate::model::{SocketId, StackModel};
use crate::model::tcp::lemma_with_tcp;
use crate::model::udp::lemma_with_udp;
use crate::session::Session;
use crate::session::manager::{TcpEntry, TcpState, UdpEntry, UdpQueue};
use crate::session::types::{Proto, SessionKey};
use crate::state::{same_ids, Core};
use crate::stream::udp::WayUdpSession;

verus! {

/// Creates a listening TCP socket for a new SYN and registers the session. Nothing
/// changes where the budget does not allow for its buffers, or the SYN is for port
/// zero.
pub fn alloc_tcp(core: &mut Core, i: usize, key: SessionKey) -> (allocated: Option<SocketHandle>)
    requires
        old(core).wf(),
        old(core).config.allocatable(),
        i < old(core).slots@.len(),
        old(core).slots@[i as int].id == key.interface,
        key.proto == Proto::Tcp,
        !old(core)@.tcp.contains_key(key),
    ensures
        final(core).wf(),
        same_ids(old(core).slots@, final(core).slots@),
        allocated is Some <==> {
            &&& old(core).config.admits(old(core)@.buffer_bytes + old(core).config.tcp_cost())
            &&& key.dst.port != 0
        },
        match allocated {
            Some(handle) => {
                &&& !old(core)@.sockets.contains_key(
                    SocketId { interface: key.interface, handle },
                )
                &&& final(core)@ == old(core)@.with_tcp(key, handle)
            },
            None => final(core)@ == old(core)@,
        },
{
    let ghost m = core@;
    let size: usize = core.slots[i].buffer_size();
    let need: usize = match core.config.tcp_socket_cost() {
        Some(need) => need,
        None => return None,
    };
    if !core.reserve_buffer(need) {
        return None;
    }
    let mut socket = tcp_socket::new_socket(size);
    if tcp_socket::listen(&mut socket, key.dst).is_err() {
        core.release_buffer(need);
        assert(core@ =~= m);
        return None;
    }
    let handle = core.add_tcp_socket(i, socket);
    core.manager.tcp.insert(
        key,
        TcpEntry { handle, state: TcpState::Pending, orphaned: false },
    );
    proof {
        assert(m.links[i as int].id == key.interface);
        assert(core@ =~= m.with_tcp(key, handle));
        lemma_with_tcp(m, key, handle);
    }
    Some(handle)
}

/// Creates a UDP session for a new flow.
///
/// All sessions that share a destination share the underlying UDP socket (the
/// engine can only demultiplex by destination), while each session keeps its own
/// receive queue. Nothing changes where there is no socket for the destination yet, and
/// the budget does not allow for its buffers, or the datagram is for port zero.
pub fn alloc_udp(core: &mut Core, i: usize, key: SessionKey, now: i64) -> (allocated: Option<
    Session,
>)
    requires
        old(core).wf(),
        old(core).config.allocatable(),
        now >= 0,
        i < old(core).slots@.len(),
        old(core).slots@[i as int].id == key.interface,
        key.proto == Proto::Udp,
        !old(core)@.udp.contains_key(key),
        old(core)@.udp.len() < usize::MAX,
    ensures
        final(core).wf(),
        same_ids(old(core).slots@, final(core).slots@),
        ({
            let m = old(core)@;
            let after = final(core)@;
            let fits = m.config.admits(m.buffer_bytes + m.config.udp_cost());
            let known = m.shared.contains_key(key.destination());
            &&& allocated is Some <==> known || fits && key.dst.port != 0
            &&& match allocated {
                Some(Session::Udp(session)) => {
                    &&& session == WayUdpSession::of_session(after, key)
                    &&& after == m.with_udp(key, session.socket, session.queue, now)
                    &&& !m.queues.contains_key(session.queue)
                    &&& known ==> session.socket == m.shared[key.destination()].handle
                    &&& !known ==> !m.sockets.contains_key(
                        SocketId { interface: key.interface, handle: session.socket },
                    )
                },
                Some(Session::Tcp(_)) => false,
                None => after == m,
            }
        }),
{
    let ghost m = core@;
    let dest = key.destination();
    let fresh: bool = !core.manager.udp_dst_sockets.contains_key(&dest);
    let mut created: Option<SocketHandle> = None;
    if fresh {
        let mtu: usize = core.slots[i].mtu();
        let need: usize = match core.config.udp_socket_cost(mtu) {
            Some(need) => need,
            None => return None,
        };
        if !core.reserve_buffer(need) {
            return None;
        }
        let packets: usize = core.config.udp_socket_packets();
        let bytes: usize = core.config.udp_socket_bytes(mtu);
        let mut socket = udp_socket::new_socket(packets, bytes);
        if udp_socket::bind(&mut socket, key.dst).is_err() {
            core.release_buffer(need);
            assert(core@ =~= m);
            return None;
        }
        created = Some(core.add_udp_socket(i, socket));
    }
    let handle = match core.manager.udp_socket_for(key.interface, key.dst, created) {
        Some(handle) => handle,
        None => return None,
    };
    proof {
        assert(m.links[i as int].id == key.interface);
        if m.shared.contains_key(dest) {
            vstd::set_lib::lemma_len_subset(m.users(dest), m.udp.dom());
        }
    }
    core.manager.udp_socket_retain(key.interface, key.dst);
    let queue: usize = core.manager.queues.add(UdpQueue::new());
    core.manager.udp.insert(key, UdpEntry { socket: handle, queue, last_activity: now });
    proof {
        assert(core@ =~= m.with_udp(key, handle, queue, now));
        lemma_with_udp(m, key, handle, queue, now);
    }
    Some(Session::Udp(WayUdpSession::new(key.interface, key, handle, queue, key.src, key.dst)))
}

/// What came of a packet of a flow.
pub enum Opening {
    /// It opens no session, and is not meant to.
    Unneeded,
    /// A TCP session, which is handed over once its handshake is complete.
    Tcp,
    /// A UDP session.
    Udp(Session),
    /// It would open a session, but may not.
    Refused(Refused),
}

impl Opening {
    /// This is what comes of a verdict in the state that it leads to.
    pub open spec fn follows(self, verdict: Verdict, after: StackModel) -> bool {
        match verdict {
            Verdict::Passes => self is Unneeded,
            Verdict::Opens(key) => if key.proto is Tcp {
                self is Tcp
            } else {
                self == Opening::Udp(Session::Udp(WayUdpSession::of_session(after, key)))
            },
            Verdict::Refuses(refused) => self == Opening::Refused(refused),
        }
    }
}

/// Whether there is a TCP connection to a destination.
fn is_occupied(core: &Core, key: &SessionKey) -> (occupied: bool)
    requires
        core.wf(),
    ensures
        occupied == core@.occupied(key.destination()),
{
    let ghost keys = core.manager.tcp.keys();
    let n: usize = core.manager.tcp.len();
    let mut i: usize = 0;
    while i < n
        invariant
            core.wf(),
            keys == core.manager.tcp.keys(),
            n == keys.len(),
            i <= n,
            forall|j: int| 0 <= j < i ==> !core@.connects(#[trigger] keys[j], key.destination()),
        decreases n - i,
    {
        let other = core.manager.tcp.key_at(i);
        if other.interface == key.interface && other.dst == key.dst {
            if let Some(entry) = core.manager.tcp.get(&other) {
                if entry.state != TcpState::Closed {
                    assert(core@.connects(other, key.destination()));
                    return true;
                }
            }
        }
        i += 1;
    }
    proof {
        core.manager.tcp.lemma_keys();
        assert forall|k: SessionKey| !core@.connects(k, key.destination()) by {
            if core@.connects(k, key.destination()) {
                assert(keys.contains(k));
                assert(keys[keys.index_of(k)] == k);
            }
        }
    }
    false
}

/// Why a session that there is no buffer for was not allocated: the budget comes before
/// the port.
fn no_buffer(core: &Core, key: SessionKey, need: Option<usize>) -> (refused: Refused)
    requires
        core.wf(),
    ensures
        refused.key == key,
        refused.reason == if need is Some && core.config.admits(
            core@.buffer_bytes + need->0 as nat,
        ) {
            Refusal::PortZero
        } else {
            Refusal::Budget
        },
{
    let total = match need {
        Some(need) => core.buffer_bytes.checked_add(need),
        None => None,
    };
    let reason = if core.config.is_within_cap(total) {
        Refusal::PortZero
    } else {
        Refusal::Budget
    };
    Refused { key, reason }
}

/// Opens a session for a packet of a flow that has none yet: for a SYN that
/// acknowledges nothing, and for any UDP datagram, as far as the limits allow.
pub fn open_session(
    core: &mut Core,
    i: usize,
    flow: Option<(IpEndpoint, IpEndpoint, L4)>,
    now: i64,
) -> (opening: Opening)
    requires
        old(core).wf(),
        old(core).config.allocatable(),
        now >= 0,
        i < old(core).slots@.len(),
    ensures
        final(core).wf(),
        final(core)@.links == old(core)@.links,
        ({
            let gate = Gate::of(old(core)@);
            let verdict = gate.verdict(
                old(core).config,
                old(core).slots@[i as int].id,
                flow,
            );
            &&& opened_by(old(core)@, final(core)@, now, gate.after(old(core).config, verdict))
            &&& opening.follows(verdict, final(core)@)
        }),
{
    let ghost m = core@;
    let ghost gate = Gate::of(m);
    let ghost id = core.slots@[i as int].id;
    proof {
        lemma_nothing_opened(m, now);
        assert(m.links[i as int].id == id);
    }
    match flow {
        Some((src, dst, L4::Tcp { syn })) => {
            if !syn {
                return Opening::Unneeded;
            }
            let key = SessionKey::new(core.slots[i].id, Proto::Tcp, src, dst);
            if core.manager.get_tcp(&key).is_some() {
                return Opening::Unneeded;
            }
            if core.manager.tcp.len() >= core.config.tcp_max_connections {
                return Opening::Refused(Refused { key, reason: Refusal::Limit });
            }
            if is_occupied(core, &key) {
                return Opening::Refused(Refused { key, reason: Refusal::Occupied });
            }
            match alloc_tcp(core, i, key) {
                Some(handle) => {
                    proof {
                        lemma_opened_tcp(m, now, key, handle);
                    }
                    Opening::Tcp
                },
                None => Opening::Refused(no_buffer(core, key, core.config.tcp_socket_cost())),
            }
        },
        Some((src, dst, L4::Udp)) => {
            let key = SessionKey::new(core.slots[i].id, Proto::Udp, src, dst);
            if core.manager.get_udp(&key).is_some() {
                return Opening::Unneeded;
            }
            if core.manager.udp.len() >= core.config.udp_max_sessions {
                return Opening::Refused(Refused { key, reason: Refusal::Limit });
            }
            let mtu: usize = core.config.mtu;
            match alloc_udp(core, i, key, now) {
                Some(session) => {
                    proof {
                        let end = session->Udp_0;
                        lemma_opened_udp(m, now, key, end.socket, end.queue);
                    }
                    Opening::Udp(session)
                },
                None => Opening::Refused(
                    no_buffer(core, key, core.config.udp_socket_cost(mtu)),
                ),
            }
        },
        None => Opening::Unneeded,
    }
}

/// What precedes a run of the engine: inspects the queued packets and opens a
/// session for each flow that is new, so that the engine finds a socket for its
/// packets. The packets stay where they are, but for SYNs that came too early: the engine
/// would reject those.
pub fn pre_pass(
    core: &mut Core,
    now: i64,
    accepted: &mut Vec<Session>,
    refused: &mut Vec<Refused>,
)
    requires
        old(core).wf(),
        old(core).config.allocatable(),
        now >= 0,
    ensures
        final(core).wf(),
        ({
            let admission = Admission::start(old(core)@).after_all(
                old(core).config,
                queued(old(core)@.links),
            );
            &&& pre_passed(old(core)@, final(core)@, now, admission)
            &&& final(accepted)@ == old(accepted)@ + udp_accepted(final(core)@, admission.opened)
            &&& final(refused)@ == old(refused)@ + admission.refused
        }),
{
    let ghost m = core@;
    let ghost links = m.links;
    let ghost start = Admission::start(m);
    let ghost mut admission = start;
    let n: usize = core.slots.len();
    let mut i: usize = 0;
    proof {
        lemma_nothing_opened(m, now);
        assert(links.take(0) =~= Seq::empty());
        assert(accepted@ =~= old(accepted)@ + udp_accepted(core@, admission.opened));
        assert(refused@ =~= old(refused)@ + admission.refused);
    }
    while i < n
        invariant
            m == old(core)@,
            m.wf(),
            core.wf(),
            m.config.allocatable(),
            now >= 0,
            links == m.links,
            n == core.slots@.len(),
            n == links.len(),
            i <= n,
            start == Admission::start(m),
            admission == start.after_all(m.config, queued(links.take(i as int))),
            admission.gate == Gate::of(core@),
            forall|k: SessionKey| #[trigger]
                admission.opened.contains(k) ==> core@.udp.contains_key(k),
            opened_by(m, core@, now, admission.gate),
            same_but_ingress(links, core@.links),
            forall|x: int| i <= x < n ==> #[trigger] core@.links[x] == links[x],
            queued(core@.links.take(i as int)) == admission.left,
            accepted@ == old(accepted)@ + udp_accepted(core@, admission.opened),
            refused@ == old(refused)@ + admission.refused,
        decreases n - i,
    {
        let ghost done = queued(links.take(i as int));
        let ghost before_left = admission.left;
        let ghost here = links[i as int].device.ingress;
        let ghost tagged = queued_on(links[i as int]);
        let ghost id = links[i as int].id;
        let ghost mut kept_here: Seq<Seq<u8>> = Seq::empty();
        let ghost earlier_links = core@.links;
        assert(core@.links[i as int] == core.slots@[i as int]@);
        let count: usize = core.slots[i].device.ingress.len();
        let mut p: usize = 0;
        let mut j: usize = 0;
        proof {
            assert(done + tagged.take(0) =~= done);
            assert(kept_here + here.skip(0) =~= here);
            assert(links[i as int].with_queue(here) =~= links[i as int]);
            assert(admission.left =~= before_left + kept_here.map_values(|x: Seq<u8>| (id, x)));
        }
        while p < count
            invariant
                m == old(core)@,
                m.wf(),
                core.wf(),
                m.config.allocatable(),
                now >= 0,
                links == m.links,
                n == core.slots@.len(),
                n == links.len(),
                i < n,
                here == links[i as int].device.ingress,
                tagged == queued_on(links[i as int]),
                id == links[i as int].id,
                count == here.len(),
                j <= p <= count,
                j == kept_here.len(),
                start == Admission::start(m),
                admission == start.after_all(m.config, done + tagged.take(p as int)),
                admission.gate == Gate::of(core@),
                forall|k: SessionKey| #[trigger]
                    admission.opened.contains(k) ==> core@.udp.contains_key(k),
                opened_by(m, core@, now, admission.gate),
                core@.links.len() == n,
                earlier_links.len() == n,
                forall|x: int| 0 <= x < n && x != i ==> #[trigger] core@.links[x] == earlier_links[x],
                core@.links[i as int] == links[i as int].with_queue(
                    kept_here + here.skip(p as int),
                ),
                admission.left == before_left + kept_here.map_values(|x: Seq<u8>| (id, x)),
                accepted@ == old(accepted)@ + udp_accepted(core@, admission.opened),
                refused@ == old(refused)@ + admission.refused,
            decreases count - p,
        {
            let ghost before = core@;
            let ghost earlier = admission;
            let ghost packet = here[p as int];
            let ghost queue = kept_here + here.skip(p as int);
            assert(core@.links[i as int] == core.slots@[i as int]@);
            assert(queue[j as int] == packet);
            assert(core.slots@[i as int].device@.ingress == queue);
            let flow = parse_l4(payload::as_slice(&core.slots[i].device.ingress[j]));
            assert(flow == flow_of(packet));
            let opening = open_session(core, i, flow, now);
            let ghost verdict = earlier.gate.verdict(m.config, id, flow);
            let ghost opened = core@;
            proof {
                let more = done + tagged.take(p + 1);
                assert(more.drop_last() =~= done + tagged.take(p as int));
                assert(more.last() == tagged[p as int]);
                admission = earlier.after(m.config, id, packet);
                lemma_opened_then(m, before, opened, now, earlier.gate, admission.gate);
                lemma_udp_accepted(before, opened, earlier.opened);
                assert forall|k: SessionKey| #[trigger]
                    admission.opened.contains(k) implies opened.udp.contains_key(k) by {
                    let x = admission.opened.index_of(k);
                    if x < earlier.opened.len() {
                        assert(earlier.opened[x] == k);
                        assert(earlier.opened.contains(k));
                        assert(before.udp.contains_key(k));
                    } else {
                        assert(Gate::of(opened).udp.contains(k));
                    }
                }
            }
            let mut withheld: bool = false;
            match opening {
                Opening::Udp(session) => {
                    accepted.push(session);
                },
                Opening::Refused(r) => {
                    refused.push(r);
                    withheld = r.withheld();
                },
                _ => {},
            }
            proof {
                assert(accepted@ =~= old(accepted)@ + udp_accepted(opened, admission.opened));
                assert(refused@ =~= old(refused)@ + admission.refused);
                assert(here.skip(p as int)[0] == packet);
                assert(here.skip(p as int).skip(1) =~= here.skip(p + 1));
            }
            if withheld {
                core.drop_packet(i, j);
                proof {
                    assert(queue.remove(j as int) =~= kept_here + here.skip(p + 1));
                    assert(opened.links[i as int].with_queue(queue.remove(j as int))
                        =~= links[i as int].with_queue(kept_here + here.skip(p + 1)));
                    lemma_opened_links(m, opened, core@, now, admission.gate);
                    lemma_udp_accepted(opened, core@, admission.opened);
                }
            } else {
                proof {
                    let more = kept_here.push(packet);
                    assert(queue =~= more + here.skip(p + 1));
                    assert(more.map_values(|x: Seq<u8>| (id, x)) =~= kept_here.map_values(
                        |x: Seq<u8>| (id, x),
                    ).push((id, packet)));
                    assert(admission.left =~= before_left + more.map_values(
                        |x: Seq<u8>| (id, x),
                    ));
                    kept_here = more;
                }
                j += 1;
            }
            p += 1;
        }
        proof {
            lemma_queued(links, i as int);
            lemma_queued(core@.links, i as int);
            assert(tagged.take(count as int) =~= tagged);
            assert(kept_here + here.skip(count as int) =~= kept_here);
            assert(core@.links.take(i as int) =~= earlier_links.take(i as int));
            assert(queued_on(core@.links[i as int]) =~= kept_here.map_values(
                |x: Seq<u8>| (id, x),
            ));
            assert forall|x: int| 0 <= x < n implies #[trigger] core@.links[x]
                == links[x].with_queue(core@.links[x].device.ingress) by {
                if x != i {
                    assert(core@.links[x] == earlier_links[x]);
                }
            }
        }
        i += 1;
    }
    proof {
        assert(links.take(n as int) =~= links);
        assert(core@.links.take(n as int) =~= core@.links);
    }
}

} // verus!
