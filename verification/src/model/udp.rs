//! UDP sessions as they come and go.

use smoltcp::iface::SocketHandle;
use vstd::prelude::*;

use crate::engine::socket_set::SocketModel;
use crate::model::{lemma_still_owned, lemma_times_mono, lemma_times_succ, SocketId, StackModel};
use crate::session::manager::{QueueModel, SharedSocket, UdpEntry};
use crate::session::types::{Destination, Proto, SessionKey};

verus! {

impl StackModel {
    /// With a UDP session for `key` on the socket of its destination, which is
    /// bound for it where there is none yet.
    pub open spec fn with_udp(
        self,
        key: SessionKey,
        handle: SocketHandle,
        queue: usize,
        now: i64,
    ) -> StackModel {
        let dest = key.destination();
        let fresh = !self.shared.contains_key(dest);
        StackModel {
            udp: self.udp.insert(key, UdpEntry { socket: handle, queue, last_activity: now }),
            shared: self.shared.insert(
                dest,
                SharedSocket {
                    handle,
                    count: if fresh {
                        1
                    } else {
                        (self.shared[dest].count + 1) as usize
                    },
                },
            ),
            sockets: if fresh {
                self.sockets.insert(
                    SocketId { interface: key.interface, handle },
                    SocketModel::Udp(self.config.udp_socket_at(key.dst)),
                )
            } else {
                self.sockets
            },
            queues: self.queues.insert(queue, QueueModel { pending: Seq::empty(), closed: false }),
            buffer_bytes: if fresh {
                self.buffer_bytes + self.config.udp_cost()
            } else {
                self.buffer_bytes
            },
            ..self
        }
    }

    /// Without a UDP session. Its queue is closed; its socket goes with the last
    /// session that shares it.
    pub open spec fn without_udp(self, key: SessionKey) -> StackModel {
        let dest = key.destination();
        let queue = self.udp[key].queue;
        let last = self.shared[dest].count <= 1;
        StackModel {
            udp: self.udp.remove(key),
            queues: self.queues.insert(queue, QueueModel { closed: true, ..self.queues[queue] }),
            shared: if last {
                self.shared.remove(dest)
            } else {
                self.shared.insert(
                    dest,
                    SharedSocket {
                        handle: self.shared[dest].handle,
                        count: (self.shared[dest].count - 1) as usize,
                    },
                )
            },
            sockets: if last {
                self.sockets.remove(self.shared_socket(dest))
            } else {
                self.sockets
            },
            buffer_bytes: if last {
                (self.buffer_bytes - self.config.udp_cost()) as nat
            } else {
                self.buffer_bytes
            },
            ..self
        }
    }

    /// The sessions of a destination that are left when some are gone.
    pub open spec fn users_left(self, dest: Destination, gone: Set<SessionKey>) -> Set<SessionKey> {
        self.users(dest).difference(gone)
    }

    /// The destinations that no session is left of when some are gone.
    pub open spec fn abandoned(self, gone: Set<SessionKey>) -> Set<Destination> {
        self.shared.dom().filter(|d: Destination| self.users_left(d, gone).len() == 0)
    }

    /// One of these sessions has this queue.
    pub open spec fn queue_of_one(self, gone: Set<SessionKey>, queue: usize) -> bool {
        exists|k: SessionKey| #[trigger] gone.contains(k) && self.udp[k].queue == queue
    }

    /// Without some of the UDP sessions. Their queues are closed; a socket goes
    /// with the last session that shares it.
    pub open spec fn without_udp_sessions(self, gone: Set<SessionKey>) -> StackModel {
        let lost = self.abandoned(gone);
        StackModel {
            udp: self.udp.remove_keys(gone),
            queues: Map::new(
                |q: usize| self.queues.contains_key(q),
                |q: usize|
                    if self.queue_of_one(gone, q) {
                        QueueModel { closed: true, ..self.queues[q] }
                    } else {
                        self.queues[q]
                    },
            ),
            shared: Map::new(
                |d: Destination| self.shared.contains_key(d) && !lost.contains(d),
                |d: Destination|
                    SharedSocket {
                        handle: self.shared[d].handle,
                        count: self.users_left(d, gone).len() as usize,
                    },
            ),
            sockets: self.sockets.remove_keys(
                lost.map(|d: Destination| self.shared_socket(d)),
            ),
            buffer_bytes: (self.buffer_bytes - lost.len() * self.config.udp_cost()) as nat,
            ..self
        }
    }
}

pub(crate) proof fn lemma_with_udp(
    m: StackModel,
    key: SessionKey,
    handle: SocketHandle,
    queue: usize,
    now: i64,
)
    requires
        m.wf(),
        key.proto == Proto::Udp,
        key.dst.port != 0,
        now >= 0,
        m.has_interface(key.interface),
        !m.udp.contains_key(key),
        m.udp.len() < usize::MAX,
        !m.queues.contains_key(queue),
        m.shared.contains_key(key.destination()) ==> handle == m.shared[key.destination()].handle,
        !m.shared.contains_key(key.destination()) ==> {
            &&& !m.sockets.contains_key(SocketId { interface: key.interface, handle })
            &&& m.config.admits(m.buffer_bytes + m.config.udp_cost())
        },
    ensures
        m.with_udp(key, handle, queue, now).wf(),
        m.shared.contains_key(key.destination()) ==> m.shared[key.destination()].count < usize::MAX,
{
    let after = m.with_udp(key, handle, queue, now);
    let dest = key.destination();
    let id = SocketId { interface: key.interface, handle };
    assert(after.users(dest) =~= m.users(dest).insert(key));
    assert forall|d: Destination| d != dest implies #[trigger] after.users(d) == m.users(d) by {
        assert(after.users(d) =~= m.users(d));
    }
    if !m.shared.contains_key(dest) {
        assert(m.users(dest) =~= Set::empty());
    } else {
        vstd::set_lib::lemma_len_subset(m.users(dest), m.udp.dom());
    }
    assert(after.shared_socket(dest) == id);
    assert(forall|d: Destination| d != dest ==> #[trigger] after.shared_socket(d) == m.shared_socket(
        d,
    ));
    assert(forall|k: SessionKey| #[trigger] after.tcp_socket(k) == m.tcp_socket(k));
    lemma_times_succ(m.shared.len(), m.config.udp_cost());
    assert(m.shared.contains_key(dest) ==> after.shared.dom() =~= m.shared.dom());
    assert(after.owners_wf()) by {
        assert forall|p: SocketId| #[trigger] after.sockets.contains_key(p) implies after.owned(
            p,
        ) by {
            if p != id {
                lemma_still_owned(m, after, p);
            }
        }
    }
}

pub(crate) proof fn lemma_without_udp(m: StackModel, key: SessionKey)
    requires
        m.wf(),
        m.udp.contains_key(key),
    ensures
        m.without_udp(key).wf(),
        m.shared[key.destination()].count <= 1 ==> m.buffer_bytes >= m.config.udp_cost(),
{
    let after = m.without_udp(key);
    let dest = key.destination();
    assert(m.users(dest).contains(key));
    assert(after.users(dest) =~= m.users(dest).remove(key));
    assert forall|d: Destination| d != dest implies #[trigger] after.users(d) == m.users(d) by {
        assert(after.users(d) =~= m.users(d));
    }
    assert(forall|d: Destination|
        after.shared.contains_key(d) ==> #[trigger] after.shared_socket(d) == m.shared_socket(d));
    assert(forall|k: SessionKey| #[trigger] after.tcp_socket(k) == m.tcp_socket(k));
    assert(m.shared.len() >= 1);
    lemma_times_succ((m.shared.len() - 1) as nat, m.config.udp_cost());
    if m.shared[dest].count <= 1 {
        assert(after.users(dest).len() == 0);
        assert forall|k: SessionKey| after.udp.contains_key(k) implies k.destination() != dest by {
            if k.destination() == dest {
                assert(after.users(dest).contains(k));
            }
        }
    } else {
        assert(after.shared.dom() =~= m.shared.dom());
    }
    assert(after.owners_wf()) by {
        assert forall|p: SocketId| #[trigger] after.sockets.contains_key(p) implies after.owned(
            p,
        ) by {
            lemma_still_owned(m, after, p);
        }
    }
}

/// When a session was last active does not matter.
pub(crate) proof fn lemma_with_udp_activity(m: StackModel, key: SessionKey, now: i64)
    requires
        m.wf(),
        m.udp.contains_key(key),
        now >= 0,
    ensures
        (StackModel {
            udp: m.udp.insert(key, UdpEntry { last_activity: now, ..m.udp[key] }),
            ..m
        }).wf(),
{
    let after = StackModel {
        udp: m.udp.insert(key, UdpEntry { last_activity: now, ..m.udp[key] }),
        ..m
    };
    assert(after.udp.dom() =~= m.udp.dom());
    assert(forall|k: SessionKey| #[trigger] after.udp[k].queue == m.udp[k].queue);
    assert(forall|k: SessionKey| #[trigger] after.tcp_socket(k) == m.tcp_socket(k));
    assert(forall|d: Destination| #[trigger] after.shared_socket(d) == m.shared_socket(d));
    assert(forall|d: Destination| #[trigger] after.users(d) == m.users(d));
    assert forall|a: SessionKey, b: SessionKey|
        #![trigger after.udp[a].queue, after.udp[b].queue]
        after.udp.contains_key(a) && after.udp.contains_key(b) && after.udp[a].queue
            == after.udp[b].queue implies a == b by {
        assert(m.udp[a].queue == m.udp[b].queue);
    }
    assert forall|p: SocketId| #[trigger] after.sockets.contains_key(p) implies after.owned(p) by {
        lemma_still_owned(m, after, p);
    }
}

pub(crate) proof fn lemma_without_no_udp(m: StackModel)
    requires
        m.wf(),
    ensures
        m.without_udp_sessions(Set::empty()) == m,
{
    let none = Set::<SessionKey>::empty();
    let same = m.without_udp_sessions(none);
    assert forall|d: Destination| #[trigger] m.users_left(d, none) == m.users(d) by {
        assert(m.users_left(d, none) =~= m.users(d));
    }
    assert(m.abandoned(none) =~= Set::empty());
    assert(same.udp =~= m.udp);
    assert(same.queues =~= m.queues);
    assert(same.shared =~= m.shared);
    assert(same.sockets =~= m.sockets);
}

/// Sessions can be taken out one by one.
pub(crate) proof fn lemma_without_one_more_udp(m: StackModel, gone: Set<SessionKey>, key: SessionKey)
    requires
        m.wf(),
        gone.subset_of(m.udp.dom()),
        m.udp.contains_key(key),
        !gone.contains(key),
    ensures
        m.without_udp_sessions(gone.insert(key)) == m.without_udp_sessions(gone).without_udp(key),
{
    let before = m.without_udp_sessions(gone);
    let after = before.without_udp(key);
    let all = gone.insert(key);
    let goal = m.without_udp_sessions(all);
    let dest = key.destination();
    let ids = |d: Destination| m.shared_socket(d);
    assert(m.users(dest).contains(key));
    assert(m.users_left(dest, gone).contains(key));
    assert(m.users_left(dest, all) =~= m.users_left(dest, gone).remove(key));
    assert forall|d: Destination| d != dest implies #[trigger] m.users_left(d, all)
        == m.users_left(d, gone) by {
        assert(m.users_left(d, all) =~= m.users_left(d, gone));
    }
    vstd::set_lib::lemma_len_subset(m.users_left(dest, gone), m.users(dest));
    assert(before.shared.contains_key(dest));
    assert(before.shared[dest].count == m.users_left(dest, gone).len());
    assert(goal.udp =~= after.udp);
    assert(goal.queues =~= after.queues) by {
        let q = m.udp[key].queue;
        assert(all.contains(key));
        assert forall|o: usize| o != q implies m.queue_of_one(all, o) == m.queue_of_one(gone, o) by {
            if m.queue_of_one(all, o) {
                let k = choose|k: SessionKey| #[trigger] all.contains(k) && m.udp[k].queue == o;
                assert(gone.contains(k));
            }
            if m.queue_of_one(gone, o) {
                let k = choose|k: SessionKey| #[trigger] gone.contains(k) && m.udp[k].queue == o;
                assert(all.contains(k));
            }
        }
        assert(m.queue_of_one(all, q));
    }
    if m.users_left(dest, gone).len() <= 1 {
        assert(m.users_left(dest, all).len() == 0);
        assert(m.abandoned(all) =~= m.abandoned(gone).insert(dest));
        vstd::set_lib::lemma_len_subset(m.abandoned(all), m.shared.dom());
        lemma_times_succ(m.abandoned(gone).len(), m.config.udp_cost());
        lemma_times_mono(m.abandoned(all).len(), m.shared.len(), m.config.udp_cost());
        assert(m.abandoned(all).map(ids) =~= m.abandoned(gone).map(ids).insert(
            m.shared_socket(dest),
        )) by {
            assert forall|p: SocketId|
                m.abandoned(gone).map(ids).insert(m.shared_socket(dest)).contains(
                    p,
                ) implies m.abandoned(all).map(ids).contains(p) by {
                if p == m.shared_socket(dest) {
                    assert(m.abandoned(all).contains(dest) && ids(dest) == p);
                } else {
                    let d = choose|d: Destination| m.abandoned(gone).contains(d) && ids(d) == p;
                    assert(m.abandoned(all).contains(d) && ids(d) == p);
                }
            }
        }
        assert(goal.sockets =~= after.sockets);
        assert(goal.shared =~= after.shared);
    } else {
        assert(m.abandoned(all) =~= m.abandoned(gone));
        assert(goal.shared =~= after.shared);
    }
}

} // verus!
