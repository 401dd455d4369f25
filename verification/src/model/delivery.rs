//! How datagrams get from sockets to sessions.

use vstd::prelude::*;

use crate::addr::IpEndpoint;
use crate::engine::socket_set::SocketModel;
use crate::engine::udp_socket::{Datagram, UdpModel};
use crate::model::{lemma_still_owned, SocketId, StackModel};
use crate::session::manager::{QueueModel, UdpEntry};
use crate::session::types::{Destination, Proto, SessionKey};

verus! {

/// The contents of the datagrams that came from `src`, in their order.
pub open spec fn routed(rx: Seq<Datagram>, src: IpEndpoint) -> Seq<Seq<u8>>
    decreases rx.len(),
{
    if rx.len() == 0 {
        Seq::empty()
    } else {
        let earlier = routed(rx.drop_last(), src);
        if rx.last().peer == src {
            earlier.push(rx.last().data)
        } else {
            earlier
        }
    }
}

impl StackModel {
    /// What the socket of a destination has received.
    pub open spec fn received(self, dest: Destination) -> Seq<Datagram> {
        self.sockets[self.shared_socket(dest)]->Udp_0.rx
    }

    /// What arrives for a session when `taken(d)` datagrams are taken from the
    /// socket of each destination `d`.
    pub open spec fn arrivals(
        self,
        key: SessionKey,
        taken: spec_fn(Destination) -> nat,
    ) -> Seq<Seq<u8>> {
        routed(self.received(key.destination()).take(taken(key.destination()) as int), key.src)
    }

    /// One of the sessions has this queue.
    pub open spec fn is_queue_of(self, key: SessionKey, queue: usize) -> bool {
        self.udp.contains_key(key) && self.udp[key].queue == queue
    }

    /// When `taken(d)` datagrams have been taken from the socket of each
    /// destination `d`, and each has gone to the session of its source and that
    /// destination, if there is one.
    pub open spec fn delivered(self, taken: spec_fn(Destination) -> nat, now: i64) -> StackModel {
        StackModel {
            sockets: Map::new(
                |p: SocketId| self.sockets.contains_key(p),
                |p: SocketId|
                    match self.sockets[p] {
                        SocketModel::Udp(u) => {
                            let dst = IpEndpoint { addr: u.local.addr->0, port: u.local.port };
                            let dest = Destination { interface: p.interface, dst };
                            SocketModel::Udp(UdpModel { rx: u.rx.skip(taken(dest) as int), ..u })
                        },
                        SocketModel::Tcp(t) => SocketModel::Tcp(t),
                    },
            ),
            udp: Map::new(
                |k: SessionKey| self.udp.contains_key(k),
                |k: SessionKey|
                    if self.arrivals(k, taken).len() > 0 {
                        UdpEntry { last_activity: now, ..self.udp[k] }
                    } else {
                        self.udp[k]
                    },
            ),
            queues: Map::new(
                |q: usize| self.queues.contains_key(q),
                |q: usize|
                    if exists|k: SessionKey| self.is_queue_of(k, q) {
                        let key = choose|k: SessionKey| self.is_queue_of(k, q);
                        QueueModel {
                            pending: self.queues[q].pending + self.arrivals(key, taken),
                            ..self.queues[q]
                        }
                    } else {
                        self.queues[q]
                    },
            ),
            ..self
        }
    }

    /// The sockets have received at least `taken(d)` datagrams for each destination `d`.
    pub open spec fn has_received(self, taken: spec_fn(Destination) -> nat) -> bool {
        forall|d: Destination| #[trigger]
            self.shared.contains_key(d) ==> taken(d) <= self.received(d).len()
    }

    /// When all datagrams have been delivered.
    pub open spec fn all_delivered(self, now: i64) -> StackModel {
        self.delivered(|d: Destination| self.received(d).len(), now)
    }
}

/// The queue of a session gets what arrives for the session.
pub(crate) proof fn lemma_delivered_queue(
    m: StackModel,
    taken: spec_fn(Destination) -> nat,
    now: i64,
    key: SessionKey,
)
    requires
        m.wf(),
        m.udp.contains_key(key),
    ensures
        m.delivered(taken, now).queues[m.udp[key].queue] == (QueueModel {
            pending: m.queues[m.udp[key].queue].pending + m.arrivals(key, taken),
            ..m.queues[m.udp[key].queue]
        }),
{
    let q = m.udp[key].queue;
    assert(m.is_queue_of(key, q));
    let other = choose|k: SessionKey| m.is_queue_of(k, q);
    assert(m.udp[other].queue == m.udp[key].queue);
}

pub(crate) proof fn lemma_delivered(m: StackModel, taken: spec_fn(Destination) -> nat, now: i64)
    requires
        m.wf(),
        now >= 0,
        m.has_received(taken),
    ensures
        m.delivered(taken, now).wf(),
{
    let after = m.delivered(taken, now);
    assert(forall|k: SessionKey| #[trigger] after.tcp_socket(k) == m.tcp_socket(k));
    assert(forall|d: Destination| #[trigger] after.shared_socket(d) == m.shared_socket(d));
    assert(after.udp.dom() =~= m.udp.dom());
    assert(forall|d: Destination| #[trigger] after.users(d) == m.users(d));
    assert(after.udp_wf()) by {
        assert forall|k: SessionKey| #[trigger]
            after.udp.contains_key(k) implies !after.queues[after.udp[k].queue].closed
            && after.queues.contains_key(after.udp[k].queue) by {
            lemma_delivered_queue(m, taken, now, k);
        }
        assert forall|a: SessionKey, b: SessionKey|
            #![trigger after.udp[a].queue, after.udp[b].queue]
            after.udp.contains_key(a) && after.udp.contains_key(b) && after.udp[a].queue
                == after.udp[b].queue implies a == b by {
            assert(m.udp[a].queue == m.udp[b].queue);
        }
    }
    assert(after.owners_wf()) by {
        assert forall|p: SocketId| #[trigger] after.sockets.contains_key(p) implies after.owned(
            p,
        ) by {
            lemma_still_owned(m, after, p);
        }
    }
}

/// Before anything is taken, nothing has changed.
pub(crate) proof fn lemma_nothing_delivered(m: StackModel, now: i64)
    requires
        m.wf(),
    ensures
        m.delivered(|d: Destination| 0, now) == m,
{
    let taken = |d: Destination| 0nat;
    let after = m.delivered(taken, now);
    assert forall|k: SessionKey| m.arrivals(k, taken) == Seq::<Seq<u8>>::empty() by {
        assert(m.received(k.destination()).take(0).len() == 0);
    }
    assert(after.sockets =~= m.sockets) by {
        assert forall|p: SocketId| m.sockets.contains_key(p) implies after.sockets[p]
            == m.sockets[p] by {
            if let SocketModel::Udp(u) = m.sockets[p] {
                assert(u.rx.skip(0) =~= u.rx);
            }
        }
    }
    assert(after.udp =~= m.udp);
    assert(after.queues =~= m.queues) by {
        assert forall|q: usize| m.queues.contains_key(q) implies after.queues[q] == m.queues[q] by {
            assert(m.queues[q].pending + Seq::<Seq<u8>>::empty() =~= m.queues[q].pending);
        }
    }
}

/// What is taken from a socket is gone from it.
pub(crate) proof fn lemma_delivered_received(
    m: StackModel,
    taken: spec_fn(Destination) -> nat,
    now: i64,
    dest: Destination,
)
    requires
        m.wf(),
        m.shared.contains_key(dest),
    ensures
        m.delivered(taken, now).shared_socket(dest) == m.shared_socket(dest),
        m.delivered(taken, now).received(dest) == m.received(dest).skip(taken(dest) as int),
{
}

/// Only the destinations that there are matter.
pub(crate) proof fn lemma_delivered_agree(
    m: StackModel,
    a: spec_fn(Destination) -> nat,
    b: spec_fn(Destination) -> nat,
    now: i64,
)
    requires
        m.wf(),
        forall|d: Destination| #[trigger] m.shared.contains_key(d) ==> a(d) == b(d),
    ensures
        m.delivered(a, now) == m.delivered(b, now),
{
    let x = m.delivered(a, now);
    let y = m.delivered(b, now);
    assert forall|k: SessionKey| m.udp.contains_key(k) implies m.arrivals(k, a) == m.arrivals(
        k,
        b,
    ) by {
        assert(m.shared.contains_key(k.destination()));
    }
    assert(x.sockets =~= y.sockets) by {
        assert forall|p: SocketId| m.sockets.contains_key(p) implies x.sockets[p]
            == y.sockets[p] by {
            if m.sockets[p] is Udp {
                assert(m.owned(p));
                let d = choose|d: Destination|
                    m.shared.contains_key(d) && #[trigger] m.shared_socket(d) == p;
                assert(a(d) == b(d));
            }
        }
    }
    assert(x.udp =~= y.udp);
    assert(x.queues =~= y.queues);
}

/// The next datagram is taken from the socket of a destination.
pub open spec fn one_more(taken: spec_fn(Destination) -> nat, dest: Destination) -> spec_fn(
    Destination,
) -> nat {
    |d: Destination|
        if d == dest {
            taken(d) + 1
        } else {
            taken(d)
        }
}

impl StackModel {
    /// When the oldest datagram has been taken from the socket of a destination.
    pub open spec fn popped(self, dest: Destination) -> StackModel {
        let u = self.sockets[self.shared_socket(dest)]->Udp_0;
        self.with_socket(
            self.shared_socket(dest),
            SocketModel::Udp(UdpModel { rx: u.rx.skip(1), ..u }),
        )
    }

    /// When a datagram has gone to the queue of its session, if there is one.
    pub open spec fn pushed(self, key: SessionKey, data: Seq<u8>, now: i64) -> StackModel {
        if self.udp.contains_key(key) {
            let entry = self.udp[key];
            let queue = self.queues[entry.queue];
            StackModel {
                udp: self.udp.insert(key, UdpEntry { last_activity: now, ..entry }),
                queues: self.queues.insert(
                    entry.queue,
                    QueueModel { pending: queue.pending.push(data), ..queue },
                ),
                ..self
            }
        } else {
            self
        }
    }
}

/// Datagrams can be delivered one by one.
pub(crate) proof fn lemma_deliver_one_more(
    m: StackModel,
    taken: spec_fn(Destination) -> nat,
    now: i64,
    dest: Destination,
)
    requires
        m.wf(),
        now >= 0,
        m.has_received(taken),
        m.shared.contains_key(dest),
        taken(dest) < m.received(dest).len(),
    ensures
        ({
            let next = m.received(dest)[taken(dest) as int];
            let key = SessionKey {
                interface: dest.interface,
                proto: Proto::Udp,
                src: next.peer,
                dst: dest.dst,
            };
            &&& m.delivered(taken, now).received(dest) == m.received(dest).skip(taken(dest) as int)
            &&& m.delivered(one_more(taken, dest), now) == m.delivered(taken, now).popped(
                dest,
            ).pushed(key, next.data, now)
        }),
{
    let next = m.received(dest)[taken(dest) as int];
    let key = SessionKey {
        interface: dest.interface,
        proto: Proto::Udp,
        src: next.peer,
        dst: dest.dst,
    };
    let more = one_more(taken, dest);
    let before = m.delivered(taken, now);
    let after = before.popped(dest).pushed(key, next.data, now);
    let goal = m.delivered(more, now);
    let rx = m.received(dest);
    let n = taken(dest) as int;
    lemma_delivered(m, taken, now);
    assert(before.shared_socket(dest) == m.shared_socket(dest));
    assert(rx.skip(n).skip(1) =~= rx.skip(n + 1));
    assert(rx.take(n + 1).drop_last() =~= rx.take(n));
    assert(rx.take(n + 1).last() == next);
    assert forall|k: SessionKey| k.destination() != dest implies m.arrivals(k, more) == m.arrivals(
        k,
        taken,
    ) by {}
    assert forall|k: SessionKey| k.destination() == dest && k.src != next.peer implies m.arrivals(
        k,
        more,
    ) == m.arrivals(k, taken) by {}
    assert(key.destination() == dest);
    assert(m.arrivals(key, more) == m.arrivals(key, taken).push(next.data));
    assert forall|k: SessionKey| m.udp.contains_key(k) && k != key implies m.arrivals(k, more)
        == m.arrivals(k, taken) by {
        if k.destination() == dest && k.src == next.peer {
            assert(k.proto == Proto::Udp);
            assert(k == key);
        }
    }
    assert(goal.sockets =~= after.sockets) by {
        assert forall|p: SocketId| m.sockets.contains_key(p) implies goal.sockets[p]
            == after.sockets[p] by {
            if m.sockets[p] is Udp {
                assert(m.owned(p));
                let d = choose|d: Destination|
                    m.shared.contains_key(d) && #[trigger] m.shared_socket(d) == p;
                if d == dest {
                    assert(p == m.shared_socket(dest));
                }
            }
        }
    }
    assert(goal.udp =~= after.udp);
    assert(goal.queues =~= after.queues) by {
        assert forall|q: usize| m.queues.contains_key(q) implies goal.queues[q]
            == after.queues[q] by {
            if exists|k: SessionKey| m.is_queue_of(k, q) {
                let k = choose|k: SessionKey| m.is_queue_of(k, q);
                lemma_delivered_queue(m, taken, now, k);
                lemma_delivered_queue(m, more, now, k);
                if k == key {
                    assert(m.queues[q].pending + m.arrivals(key, taken).push(next.data) =~= (
                    m.queues[q].pending + m.arrivals(key, taken)).push(next.data));
                } else if m.udp.contains_key(key) {
                    assert(m.udp[k].queue != m.udp[key].queue);
                }
            } else {
                assert(m.udp.contains_key(key) ==> m.udp[key].queue != q) by {
                    if m.udp.contains_key(key) && m.udp[key].queue == q {
                        assert(m.is_queue_of(key, q));
                    }
                }
            }
        }
    }
}

} // verus!
