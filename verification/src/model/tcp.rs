//! TCP sessions as they come and go.

use smoltcp::iface::SocketHandle;
use vstd::prelude::*;

use crate::engine::socket_set::SocketModel;
use crate::engine::tcp_socket::{TcpModel, MAX_TCP_BUFFER};
use crate::model::{lemma_still_owned, lemma_times_mono, lemma_times_succ, SocketId, StackModel};
use crate::session::manager::{TcpEntry, TcpState};
use crate::session::types::{Destination, Proto, SessionKey};

verus! {

impl StackModel {
    /// With a TCP session for `key` that waits for its handshake, and a listening
    /// socket for it.
    pub open spec fn with_tcp(self, key: SessionKey, handle: SocketHandle) -> StackModel {
        StackModel {
            tcp: self.tcp.insert(
                key,
                TcpEntry { handle, state: TcpState::Pending, orphaned: false },
            ),
            sockets: self.sockets.insert(
                SocketId { interface: key.interface, handle },
                SocketModel::Tcp(
                    TcpModel::listening_at(key.dst, self.config.tcp_buffer_size as nat),
                ),
            ),
            buffer_bytes: self.buffer_bytes + self.config.tcp_cost(),
            ..self
        }
    }

    /// Without a TCP session and its socket.
    pub open spec fn without_tcp(self, key: SessionKey) -> StackModel {
        StackModel {
            tcp: self.tcp.remove(key),
            sockets: self.sockets.remove(self.tcp_socket(key)),
            buffer_bytes: (self.buffer_bytes - self.config.tcp_cost()) as nat,
            ..self
        }
    }

    /// Without some of the TCP sessions and their sockets.
    pub open spec fn without_tcp_sessions(self, gone: Set<SessionKey>) -> StackModel {
        StackModel {
            tcp: self.tcp.remove_keys(gone),
            sockets: self.sockets.remove_keys(gone.map(|k: SessionKey| self.tcp_socket(k))),
            buffer_bytes: (self.buffer_bytes - gone.len() * self.config.tcp_cost()) as nat,
            ..self
        }
    }
}

pub(crate) proof fn lemma_with_tcp(m: StackModel, key: SessionKey, handle: SocketHandle)
    requires
        m.wf(),
        key.proto == Proto::Tcp,
        m.has_interface(key.interface),
        !m.tcp.contains_key(key),
        !m.sockets.contains_key(SocketId { interface: key.interface, handle }),
        m.config.admits(m.buffer_bytes + m.config.tcp_cost()),
        m.config.tcp_buffer_size <= MAX_TCP_BUFFER,
    ensures
        m.with_tcp(key, handle).wf(),
{
    let after = m.with_tcp(key, handle);
    let id = SocketId { interface: key.interface, handle };
    assert(forall|d: Destination| #[trigger] after.shared_socket(d) == m.shared_socket(d));
    assert(forall|d: Destination| #[trigger] after.users(d) == m.users(d));
    assert(after.tcp_socket(key) == id);
    assert forall|k: SessionKey| k != key implies #[trigger] after.tcp_socket(k) == m.tcp_socket(
        k,
    ) by {}
    lemma_times_succ(m.tcp.len(), m.config.tcp_cost());
    assert(after.owners_wf()) by {
        assert forall|p: SocketId| #[trigger] after.sockets.contains_key(p) implies after.owned(
            p,
        ) by {
            if p != id {
                lemma_still_owned(m, after, p);
            }
        }
    }
}

pub(crate) proof fn lemma_without_tcp(m: StackModel, key: SessionKey)
    requires
        m.wf(),
        m.tcp.contains_key(key),
    ensures
        m.without_tcp(key).wf(),
        m.buffer_bytes >= m.config.tcp_cost(),
{
    let after = m.without_tcp(key);
    assert(forall|d: Destination| #[trigger] after.shared_socket(d) == m.shared_socket(d));
    assert(forall|d: Destination| #[trigger] after.users(d) == m.users(d));
    assert(forall|k: SessionKey| k != key ==> #[trigger] after.tcp_socket(k) == m.tcp_socket(k));
    assert(m.tcp.len() >= 1);
    lemma_times_succ((m.tcp.len() - 1) as nat, m.config.tcp_cost());
    assert(after.owners_wf()) by {
        assert forall|p: SocketId| #[trigger] after.sockets.contains_key(p) implies after.owned(
            p,
        ) by {
            lemma_still_owned(m, after, p);
        }
    }
}

/// An entry may change in anything but its socket.
pub(crate) proof fn lemma_with_tcp_entry(m: StackModel, key: SessionKey, entry: TcpEntry)
    requires
        m.wf(),
        m.tcp.contains_key(key),
        entry.handle == m.tcp[key].handle,
    ensures
        (StackModel { tcp: m.tcp.insert(key, entry), ..m }).wf(),
{
    let after = StackModel { tcp: m.tcp.insert(key, entry), ..m };
    assert(after.tcp.dom() =~= m.tcp.dom());
    assert(forall|k: SessionKey| #[trigger] after.tcp_socket(k) == m.tcp_socket(k));
    assert(forall|d: Destination| #[trigger] after.shared_socket(d) == m.shared_socket(d));
    assert(forall|d: Destination| #[trigger] after.users(d) == m.users(d));
    assert forall|p: SocketId| #[trigger] after.sockets.contains_key(p) implies after.owned(p) by {
        lemma_still_owned(m, after, p);
    }
}

pub(crate) proof fn lemma_without_no_tcp(m: StackModel)
    ensures
        m.without_tcp_sessions(Set::empty()) == m,
{
    let none = Set::<SessionKey>::empty();
    assert(m.tcp.remove_keys(none) =~= m.tcp);
    assert(m.sockets.remove_keys(none.map(|k: SessionKey| m.tcp_socket(k))) =~= m.sockets);
}

/// Sessions can be taken out one by one.
pub(crate) proof fn lemma_without_one_more_tcp(m: StackModel, gone: Set<SessionKey>, key: SessionKey)
    requires
        m.wf(),
        gone.subset_of(m.tcp.dom()),
        m.tcp.contains_key(key),
        !gone.contains(key),
    ensures
        m.without_tcp_sessions(gone.insert(key)) == m.without_tcp_sessions(gone).without_tcp(key),
{
    let before = m.without_tcp_sessions(gone);
    let after = before.without_tcp(key);
    let all = gone.insert(key);
    let ids = |k: SessionKey| m.tcp_socket(k);
    vstd::set_lib::lemma_len_subset(all, m.tcp.dom());
    lemma_times_succ(gone.len(), m.config.tcp_cost());
    lemma_times_mono(all.len(), m.tcp.len(), m.config.tcp_cost());
    assert(m.tcp.remove_keys(all) =~= before.tcp.remove(key));
    assert(before.tcp_socket(key) == m.tcp_socket(key));
    assert(all.map(ids) =~= gone.map(ids).insert(m.tcp_socket(key))) by {
        assert forall|p: SocketId| gone.map(ids).insert(m.tcp_socket(key)).contains(p) implies all.map(
            ids,
        ).contains(p) by {
            if p == m.tcp_socket(key) {
                assert(all.contains(key) && ids(key) == p);
            } else {
                let k = choose|k: SessionKey| gone.contains(k) && ids(k) == p;
                assert(all.contains(k) && ids(k) == p);
            }
        }
    }
    assert(m.sockets.remove_keys(all.map(ids)) =~= before.sockets.remove(before.tcp_socket(key)));
    assert(gone.finite());
}

pub(crate) proof fn lemma_without_tcp_sessions(m: StackModel, gone: Set<SessionKey>)
    requires
        m.wf(),
        gone.subset_of(m.tcp.dom()),
    ensures
        m.without_tcp_sessions(gone).wf(),
    decreases gone.len(),
{
    vstd::set_lib::lemma_len_subset(gone, m.tcp.dom());
    if gone =~= Set::empty() {
        lemma_without_no_tcp(m);
    } else {
        let key = gone.choose();
        let fewer = gone.remove(key);
        lemma_without_tcp_sessions(m, fewer);
        lemma_without_one_more_tcp(m, fewer, key);
        assert(fewer.insert(key) =~= gone);
        lemma_without_tcp(m.without_tcp_sessions(fewer), key);
    }
}

} // verus!
