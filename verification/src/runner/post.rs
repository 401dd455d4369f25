//! What follows a run of the engine.

use bytes::Bytes;
use smoltcp::iface::SocketHandle;
use vstd::prelude::*;

use crate::engine::clock;
use crate::engine::payload::{self, octets};
use crate::engine::tcp_socket::{self, TcpPhase};
use crate::engine::udp_socket::{self, UdpRecvError};
use crate::model::{lemma_with_socket, StackModel};
use crate::model::delivery::{
    lemma_deliver_one_more, lemma_delivered, lemma_delivered_agree, lemma_delivered_received,
    lemma_nothing_delivered, one_more,
};
use crate::model::round::lemma_advanced;
use crate::model::tcp::{lemma_without_no_tcp, lemma_without_one_more_tcp, lemma_without_tcp};
use crate::model::udp::{lemma_without_no_udp, lemma_without_one_more_udp, lemma_without_udp};
use crate::session::Session;
use crate::session::manager::{TcpEntry, TcpState};
use crate::session::types::{Destination, Proto, SessionKey};
use crate::state::Core;
use crate::stream::tcp::WayTcpStream;
use crate::table::{in_order, lemma_in_order};

verus! {

/// The TCP sessions that are handed to the application, in the order of `keys`.
pub open spec fn tcp_accepted(m: StackModel, keys: Seq<SessionKey>) -> Seq<Session> {
    in_order(keys, m.newly_established()).map_values(
        |k: SessionKey| Session::Tcp(WayTcpStream::of_session(m, k)),
    )
}

/// Lets every TCP session note what its socket has come to. Hands over the
/// sessions whose handshake is complete, and returns those that are finished.
fn advance_tcp(core: &mut Core, accepted: &mut Vec<Session>) -> (finished: Vec<SessionKey>)
    requires
        old(core).wf(),
    ensures
        final(core).wf(),
        final(core)@ == old(core)@.advanced(),
        final(accepted)@ == old(accepted)@ + tcp_accepted(
            old(core)@,
            old(core).manager.tcp.keys(),
        ),
        finished@.no_duplicates(),
        finished@.to_set() == old(core)@.advanced().reapable(),
{
    let ghost m = core@;
    let ghost keys = core.manager.tcp.keys();
    let n: usize = core.manager.tcp.len();
    let mut finished: Vec<SessionKey> = Vec::new();
    let mut i: usize = 0;
    proof {
        core.manager.tcp.lemma_keys();
        assert(tcp_accepted(m, keys.take(0)) =~= Seq::empty());
        assert(in_order(keys.take(0), m.reapable()) =~= Seq::empty());
        assert(accepted@ =~= old(accepted)@ + tcp_accepted(m, keys.take(0)));
    }
    while i < n
        invariant
            m == old(core)@,
            m.wf(),
            core.parts_wf(),
            core.manager.tcp.keys() == keys,
            keys == old(core).manager.tcp.keys(),
            n == keys.len(),
            i <= n,
            keys.no_duplicates(),
            forall|j: int| 0 <= j < n ==> m.tcp.contains_key(#[trigger] keys[j]),
            core@ == (StackModel { tcp: core@.tcp, ..m }),
            core@.tcp.dom() == m.tcp.dom(),
            forall|j: int|
                0 <= j < n ==> core@.tcp[#[trigger] keys[j]] == if j < i {
                    m.advanced().tcp[keys[j]]
                } else {
                    m.tcp[keys[j]]
                },
            accepted@ == old(accepted)@ + tcp_accepted(m, keys.take(i as int)),
            finished@ == in_order(keys.take(i as int), m.reapable()),
        decreases n - i,
    {
        let key = core.manager.tcp.key_at(i);
        let ghost before = core@;
        assert(key == keys[i as int]);
        assert(m.tcp.contains_key(key));
        assert(before.tcp_socket(key) == m.tcp_socket(key));
        assert(keys.take(i + 1).drop_last() =~= keys.take(i as int));
        let entry: TcpEntry = match core.manager.tcp.get(&key) {
            Some(entry) => *entry,
            None => return finished,
        };
        let slot: usize = match core.slot_index(key.interface) {
            Some(slot) => slot,
            None => return finished,
        };
        let socket = core.tcp_socket_mut(slot, entry.handle);
        let phase = tcp_socket::state(socket);
        assert(phase == m.phase(key));
        assert(core@ =~= before);
        match entry.state {
            TcpState::Pending => {
                if phase != TcpPhase::Closed && phase != TcpPhase::Listen && phase
                    != TcpPhase::SynSent && phase != TcpPhase::SynReceived {
                    if let Some(e) = core.manager.tcp.get_mut(&key) {
                        e.state = TcpState::Established;
                    }
                    let stream = WayTcpStream::new(
                        key.interface,
                        key,
                        entry.handle,
                        key.src,
                        key.dst,
                    );
                    accepted.push(Session::Tcp(stream));
                }
            },
            TcpState::Established => {
                if phase == TcpPhase::Closed || phase == TcpPhase::TimeWait || phase
                    == TcpPhase::Listen {
                    if let Some(e) = core.manager.tcp.get_mut(&key) {
                        e.state = TcpState::Closed;
                    }
                }
            },
            TcpState::Closed => {},
        }
        if entry.orphaned && phase == TcpPhase::Closed {
            finished.push(key);
        }
        assert(accepted@ =~= old(accepted)@ + tcp_accepted(m, keys.take(i + 1)));
        i += 1;
    }
    proof {
        assert(keys.take(n as int) =~= keys);
        lemma_in_order(keys, m.reapable());
        lemma_advanced(m);
        core.manager.tcp.lemma_keys();
        assert(core@.tcp =~= m.advanced().tcp) by {
            assert forall|k: SessionKey| m.tcp.contains_key(k) implies core@.tcp[k]
                == m.advanced().tcp[k] by {
                assert(keys.contains(k));
                assert(keys[keys.index_of(k)] == k);
            }
        }
        assert(m.advanced().reapable() =~= m.reapable());
        assert(finished@.to_set() =~= m.reapable());
    }
    finished
}

/// Takes finished TCP sessions out, with their sockets.
fn reap_tcp(core: &mut Core, finished: Vec<SessionKey>)
    requires
        old(core).wf(),
        finished@.no_duplicates(),
        finished@.to_set().subset_of(old(core)@.tcp.dom()),
    ensures
        final(core).wf(),
        final(core)@ == old(core)@.without_tcp_sessions(finished@.to_set()),
{
    let ghost m = core@;
    let mut i: usize = 0;
    proof {
        assert(finished@.take(0).to_set() =~= Set::empty());
        lemma_without_no_tcp(m);
    }
    while i < finished.len()
        invariant
            m == old(core)@,
            m.wf(),
            core.wf(),
            i <= finished@.len(),
            finished@.no_duplicates(),
            finished@.to_set().subset_of(m.tcp.dom()),
            core@ == m.without_tcp_sessions(finished@.take(i as int).to_set()),
        decreases finished@.len() - i,
    {
        let key = finished[i];
        let ghost gone = finished@.take(i as int).to_set();
        let ghost before = core@;
        proof {
            assert(finished@.to_set().contains(key));
            assert(!gone.contains(key));
            assert(gone.subset_of(m.tcp.dom())) by {
                assert forall|k: SessionKey| gone.contains(k) implies m.tcp.contains_key(k) by {
                    assert(finished@.to_set().contains(k));
                }
            }
            lemma_without_one_more_tcp(m, gone, key);
            lemma_without_tcp(before, key);
            lemma_take_one_more(finished@, i as int);
        }
        if let Some(entry) = core.manager.tcp.remove(&key) {
            if let Some(slot) = core.slot_index(key.interface) {
                let size: usize = core.slots[slot].buffer_size();
                core.remove_socket(slot, entry.handle);
                core.release_buffer(2 * size);
            }
        }
        assert(core@ =~= before.without_tcp(key));
        i += 1;
    }
    assert(finished@.take(i as int) =~= finished@);
}

/// Takes a UDP session out, if there is one for `key`: closes its queue, and takes
/// its socket out if no other session shares it.
pub(crate) fn remove_udp(core: &mut Core, key: &SessionKey) -> (removed: bool)
    requires
        old(core).wf(),
    ensures
        final(core).wf(),
        removed == old(core)@.udp.contains_key(*key),
        final(core)@ == if removed {
            old(core)@.without_udp(*key)
        } else {
            old(core)@
        },
{
    let ghost m = core@;
    match core.manager.udp.remove(key) {
        Some(entry) => {
            proof {
                lemma_without_udp(m, *key);
            }
            if let Some(queue) = core.manager.queues.get_mut(entry.queue) {
                queue.mark_closed();
            }
            if core.manager.udp_socket_release(key.interface, key.dst) {
                if let Some(slot) = core.slot_index(key.interface) {
                    let mtu: usize = core.slots[slot].mtu();
                    core.remove_socket(slot, entry.socket);
                    if let Some(cost) = core.config.udp_socket_cost(mtu) {
                        core.release_buffer(cost);
                    }
                }
            }
            assert(core@ =~= m.without_udp(*key));
            true
        },
        None => {
            assert(core@ =~= m);
            false
        },
    }
}

/// Puts a datagram into the queue of its session and notes the time. Tells whether
/// there is such a session.
fn route_udp(core: &mut Core, key: &SessionKey, data: Bytes, now: i64) -> (routed: bool)
    requires
        old(core).wf(),
    ensures
        final(core).parts_wf(),
        final(core).manager.udp_dst_sockets == old(core).manager.udp_dst_sockets,
        routed == old(core)@.udp.contains_key(*key),
        final(core)@ == old(core)@.pushed(*key, octets(data), now),
{
    let ghost m = core@;
    match core.manager.udp.get_mut(key) {
        Some(entry) => {
            entry.last_activity = now;
            let id: usize = entry.queue;
            if let Some(queue) = core.manager.queues.get_mut(id) {
                queue.push(data);
            }
            assert(core@ =~= m.pushed(*key, octets(data), now));
            true
        },
        None => {
            assert(core@ =~= m);
            false
        },
    }
}

/// Drains the UDP socket of a destination: each datagram goes to the session of its
/// source and that destination.
fn drain_udp(
    core: &mut Core,
    dest: Destination,
    now: i64,
    Ghost(m): Ghost<StackModel>,
    Ghost(taken): Ghost<spec_fn(Destination) -> nat>,
)
    requires
        old(core).parts_wf(),
        m.wf(),
        now >= 0,
        old(core)@ == m.delivered(taken, now),
        m.has_received(taken),
        m.shared.contains_key(dest),
        taken(dest) == 0,
    ensures
        final(core).parts_wf(),
        final(core).manager.udp_dst_sockets == old(core).manager.udp_dst_sockets,
        final(core)@ == m.delivered(
            |d: Destination|
                if d == dest {
                    m.received(d).len()
                } else {
                    taken(d)
                },
            now,
        ),
{
    let ghost mut done = taken;
    let ghost goal = |d: Destination|
        if d == dest {
            m.received(d).len()
        } else {
            taken(d)
        };
    let handle: SocketHandle = match core.manager.udp_dst_sockets.get(&dest) {
        Some(shared) => shared.handle,
        None => return ,
    };
    let slot: usize = match core.slot_index(dest.interface) {
        Some(slot) => slot,
        None => return ,
    };
    loop
        invariant
            m.wf(),
            now >= 0,
            core.parts_wf(),
            core.manager.udp_dst_sockets == old(core).manager.udp_dst_sockets,
            slot < core.slots@.len(),
            core.slots@[slot as int].id == dest.interface,
            m.shared.contains_key(dest),
            handle == m.shared[dest].handle,
            core@ == m.delivered(done, now),
            m.has_received(done),
            forall|d: Destination| d != dest ==> #[trigger] done(d) == taken(d),
            goal == |d: Destination|
                if d == dest {
                    m.received(d).len()
                } else {
                    taken(d)
                },
        ensures
            core.parts_wf(),
            core.manager.udp_dst_sockets == old(core).manager.udp_dst_sockets,
            core@ == m.delivered(goal, now),
        decreases m.received(dest).len() - done(dest),
    {
        let ghost before = core@;
        proof {
            lemma_delivered(m, done, now);
            lemma_delivered_received(m, done, now, dest);
        }
        let socket = core.udp_socket_mut(slot, handle);
        match udp_socket::recv(socket) {
            Ok((payload, src)) => {
                let data = payload::copy_from_slice(payload);
                let key = SessionKey::new(dest.interface, Proto::Udp, src, dest.dst);
                proof {
                    assert(core@ == before.popped(dest));
                    lemma_with_socket(
                        before,
                        before.shared_socket(dest),
                        core@.sockets[before.shared_socket(dest)],
                    );
                    lemma_deliver_one_more(m, done, now, dest);
                }
                let _ = route_udp(core, &key, data, now);
                proof {
                    done = one_more(done, dest);
                }
            },
            Err(UdpRecvError::Exhausted) => {
                proof {
                    assert(core@ =~= before);
                    lemma_delivered_agree(m, done, goal, now);
                }
                break ;
            },
            Err(UdpRecvError::Truncated) => {},
        }
    }
}

/// Drains every UDP socket: each datagram goes to the session of its source and its
/// destination.
fn deliver_udp(core: &mut Core, now: i64)
    requires
        old(core).wf(),
        now >= 0,
    ensures
        final(core).wf(),
        final(core)@ == old(core)@.all_delivered(now),
{
    let ghost m = core@;
    let ghost dests = core.manager.udp_dst_sockets.keys();
    let ghost all = |d: Destination| m.received(d).len();
    let ghost mut taken = |d: Destination| 0nat;
    let n: usize = core.manager.udp_dst_sockets.len();
    let mut i: usize = 0;
    proof {
        core.manager.udp_dst_sockets.lemma_keys();
        lemma_nothing_delivered(m, now);
    }
    while i < n
        invariant
            m.wf(),
            now >= 0,
            core.parts_wf(),
            core.manager.udp_dst_sockets.keys() == dests,
            n == dests.len(),
            i <= n,
            dests.no_duplicates(),
            forall|j: int| 0 <= j < n ==> m.shared.contains_key(#[trigger] dests[j]),
            all == |d: Destination| m.received(d).len(),
            core@ == m.delivered(taken, now),
            m.has_received(taken),
            forall|j: int|
                0 <= j < n ==> taken(#[trigger] dests[j]) == if j < i {
                    all(dests[j])
                } else {
                    0
                },
        decreases n - i,
    {
        let dest = core.manager.udp_dst_sockets.key_at(i);
        assert(dest == dests[i as int]);
        drain_udp(core, dest, now, Ghost(m), Ghost(taken));
        proof {
            let before = taken;
            taken =
            |d: Destination|
                if d == dest {
                    m.received(d).len()
                } else {
                    before(d)
                };
        }
        i += 1;
    }
    proof {
        core.manager.udp_dst_sockets.lemma_keys();
        assert forall|d: Destination| #[trigger] m.shared.contains_key(d) implies taken(d) == all(
            d,
        ) by {
            assert(core@.shared.contains_key(d));
            assert(dests.contains(d));
            assert(dests[dests.index_of(d)] == d);
        }
        lemma_delivered_agree(m, taken, all, now);
        lemma_delivered(m, all, now);
    }
}

/// The UDP sessions that have been silent for longer than the timeout, each once.
fn find_expired(core: &Core, now: i64) -> (expired: Vec<SessionKey>)
    requires
        core.wf(),
        core.config.measurable(),
        now >= 0,
    ensures
        expired@.no_duplicates(),
        expired@.to_set() == core@.expired(now),
{
    let timeout: u64 = clock::span_micros(core.config.udp_session_timeout);
    let ghost keys = core.manager.udp.keys();
    let n: usize = core.manager.udp.len();
    let mut expired: Vec<SessionKey> = Vec::new();
    let mut i: usize = 0;
    proof {
        core.manager.udp.lemma_keys();
    }
    while i < n
        invariant
            core.wf(),
            now >= 0,
            keys == core.manager.udp.keys(),
            n == keys.len(),
            i <= n,
            timeout == core@.config.udp_timeout(),
            expired@ == in_order(keys.take(i as int), core@.expired(now)),
        decreases n - i,
    {
        let key = core.manager.udp.key_at(i);
        assert(core@.udp.contains_key(key));
        assert(keys.take(i + 1).drop_last() =~= keys.take(i as int));
        if let Some(entry) = core.manager.udp.get(&key) {
            if clock::elapsed(now, entry.last_activity) > timeout {
                expired.push(key);
            }
        }
        i += 1;
    }
    proof {
        assert(keys.take(n as int) =~= keys);
        lemma_in_order(keys, core@.expired(now));
        assert(expired@.to_set() =~= core@.expired(now)) by {
            assert forall|k: SessionKey| core@.expired(now).contains(k) implies keys.to_set().contains(
                k,
            ) by {
                assert(core@.udp.contains_key(k));
            }
        }
    }
    expired
}

/// Takes UDP sessions out that have been silent for longer than the timeout.
fn expire_udp(core: &mut Core, now: i64)
    requires
        old(core).wf(),
        old(core).config.measurable(),
        now >= 0,
    ensures
        final(core).wf(),
        final(core)@ == old(core)@.without_udp_sessions(old(core)@.expired(now)),
{
    let ghost m = core@;
    let expired = find_expired(core, now);
    let mut i: usize = 0;
    proof {
        assert(expired@.take(0).to_set() =~= Set::empty());
        lemma_without_no_udp(m);
    }
    while i < expired.len()
        invariant
            m.wf(),
            core.wf(),
            i <= expired@.len(),
            expired@.no_duplicates(),
            expired@.to_set() == m.expired(now),
            core@ == m.without_udp_sessions(expired@.take(i as int).to_set()),
        decreases expired@.len() - i,
    {
        let key = expired[i];
        let ghost gone = expired@.take(i as int).to_set();
        proof {
            assert(expired@.to_set().contains(key));
            assert(!gone.contains(key));
            assert(gone.subset_of(m.udp.dom())) by {
                assert forall|k: SessionKey| gone.contains(k) implies m.udp.contains_key(k) by {
                    assert(expired@.to_set().contains(k));
                }
            }
            lemma_without_one_more_udp(m, gone, key);
            lemma_take_one_more(expired@, i as int);
        }
        let _ = remove_udp(core, &key);
        i += 1;
    }
    assert(expired@.take(i as int) =~= expired@);
}

/// The next element joins the ones before it.
proof fn lemma_take_one_more(keys: Seq<SessionKey>, i: int)
    requires
        0 <= i < keys.len(),
    ensures
        keys.take(i + 1).to_set() == keys.take(i).to_set().insert(keys[i]),
{
    let more = keys.take(i).to_set().insert(keys[i]);
    assert forall|k: SessionKey| more.contains(k) implies keys.take(i + 1).to_set().contains(k) by {
        if k == keys[i] {
            assert(keys.take(i + 1)[i] == k);
        } else {
            assert(keys.take(i + 1)[keys.take(i).index_of(k)] == k);
        }
    }
    assert(keys.take(i + 1) =~= keys.take(i).push(keys[i]));
    assert(keys.take(i + 1).to_set() =~= more);
}

/// What follows a run of the engine: TCP sessions whose handshake is complete are
/// handed over and finished ones are taken out; datagrams go to their sessions; UDP
/// sessions that have been silent for too long are taken out.
pub fn post_pass(core: &mut Core, now: i64, accepted: &mut Vec<Session>)
    requires
        old(core).wf(),
        old(core).config.measurable(),
        now >= 0,
    ensures
        final(core).wf(),
        final(core)@ == old(core)@.settled(now),
        final(accepted)@ == old(accepted)@ + tcp_accepted(
            old(core)@,
            old(core).manager.tcp.keys(),
        ),
{
    proof {
        lemma_advanced(core@);
    }
    let finished = advance_tcp(core, accepted);
    reap_tcp(core, finished);
    deliver_udp(core, now);
    expire_udp(core, now);
}

} // verus!
