//! The receive queues of UDP sessions.

use vstd::prelude::*;

use crate::model::{lemma_still_owned, SocketId, StackModel};
use crate::session::manager::QueueModel;
use crate::session::types::{Destination, SessionKey};

verus! {

impl StackModel {
    /// With another content in a queue.
    pub open spec fn with_queue(self, id: usize, queue: QueueModel) -> StackModel {
        StackModel { queues: self.queues.insert(id, queue), ..self }
    }
}

pub(crate) proof fn lemma_with_queue(m: StackModel, id: usize, queue: QueueModel)
    requires
        m.wf(),
        m.queues.contains_key(id),
        queue.closed == m.queues[id].closed,
    ensures
        m.with_queue(id, queue).wf(),
{
    lemma_queues_changed(m, m.with_queue(id, queue));
}

pub(crate) proof fn lemma_without_queue(m: StackModel, id: usize)
    requires
        m.wf(),
        forall|k: SessionKey| !#[trigger] m.is_queue_of(k, id),
    ensures
        (StackModel { queues: m.queues.remove(id), ..m }).wf(),
{
    let after = StackModel { queues: m.queues.remove(id), ..m };
    assert forall|k: SessionKey| #[trigger] m.udp.contains_key(k) implies after.queues.contains_key(
        m.udp[k].queue,
    ) by {
        assert(!m.is_queue_of(k, id));
    }
    lemma_queues_changed(m, after);
}

/// Queues may change while the sessions have open ones.
proof fn lemma_queues_changed(a: StackModel, b: StackModel)
    requires
        a.wf(),
        b == (StackModel { queues: b.queues, ..a }),
        forall|k: SessionKey| #[trigger]
            a.udp.contains_key(k) ==> b.queues.contains_key(a.udp[k].queue)
                && !b.queues[a.udp[k].queue].closed,
    ensures
        b.wf(),
{
    assert(forall|k: SessionKey| #[trigger] b.tcp_socket(k) == a.tcp_socket(k));
    assert(forall|d: Destination| #[trigger] b.shared_socket(d) == a.shared_socket(d));
    assert(forall|d: Destination| #[trigger] b.users(d) == a.users(d));
    assert forall|p: SocketId| #[trigger] b.sockets.contains_key(p) implies b.owned(p) by {
        lemma_still_owned(a, b, p);
    }
}

} // verus!
