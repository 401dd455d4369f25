//! What one round makes of the state.

use vstd::prelude::*;

use crate::engine::clock::distance;
use crate::engine::tcp_socket::TcpPhase;
use crate::model::{lemma_still_owned, SocketId, StackModel};
use crate::session::manager::{TcpEntry, TcpState};
use crate::session::types::{Destination, SessionKey};

verus! {

/// What becomes of a TCP session whose socket is in this phase.
pub open spec fn next_state(state: TcpState, phase: TcpPhase) -> TcpState {
    match state {
        TcpState::Pending => if phase.handshake_complete() {
            TcpState::Established
        } else {
            TcpState::Pending
        },
        TcpState::Established => if phase is Closed || phase is TimeWait || phase is Listen {
            TcpState::Closed
        } else {
            TcpState::Established
        },
        TcpState::Closed => TcpState::Closed,
    }
}

impl StackModel {
    /// The phase that the socket of a TCP session is in.
    pub open spec fn phase(self, key: SessionKey) -> TcpPhase {
        self.sockets[self.tcp_socket(key)]->Tcp_0.phase
    }

    /// The TCP sessions whose handshake has just been completed.
    pub open spec fn newly_established(self) -> Set<SessionKey> {
        self.tcp.dom().filter(
            |k: SessionKey| self.tcp[k].state is Pending && self.phase(k).handshake_complete(),
        )
    }

    /// When every TCP session has noted what its socket has come to.
    pub open spec fn advanced(self) -> StackModel {
        StackModel {
            tcp: Map::new(
                |k: SessionKey| self.tcp.contains_key(k),
                |k: SessionKey|
                    TcpEntry { state: next_state(self.tcp[k].state, self.phase(k)), ..self.tcp[k] },
            ),
            ..self
        }
    }

    /// The TCP sessions that the application has dropped and whose connection is
    /// fully closed.
    pub open spec fn reapable(self) -> Set<SessionKey> {
        self.tcp.dom().filter(|k: SessionKey| self.tcp[k].orphaned && self.phase(k) is Closed)
    }

    /// The UDP sessions that have been silent for longer than the timeout.
    pub open spec fn expired(self, now: i64) -> Set<SessionKey> {
        self.udp.dom().filter(
            |k: SessionKey|
                distance(now as int, self.udp[k].last_activity as int) > self.config.udp_timeout(),
        )
    }

    /// When TCP sessions have moved on and the finished ones are gone, all
    /// datagrams are with their sessions, and silent UDP sessions are gone.
    pub open spec fn settled(self, now: i64) -> StackModel {
        let moved = self.advanced();
        let delivered = moved.without_tcp_sessions(moved.reapable()).all_delivered(now);
        delivered.without_udp_sessions(delivered.expired(now))
    }
}

pub(crate) proof fn lemma_advanced(m: StackModel)
    requires
        m.wf(),
    ensures
        m.advanced().wf(),
{
    let after = m.advanced();
    assert(after.tcp.dom() =~= m.tcp.dom());
    assert forall|k: SessionKey| m.tcp.contains_key(k) implies #[trigger] after.tcp_socket(k)
        == m.tcp_socket(k) by {}
    assert(forall|d: Destination| #[trigger] after.shared_socket(d) == m.shared_socket(d));
    assert(forall|d: Destination| #[trigger] after.users(d) == m.users(d));
    assert(after.owners_wf()) by {
        assert forall|p: SocketId| #[trigger] after.sockets.contains_key(p) implies after.owned(
            p,
        ) by {
            lemma_still_owned(m, after, p);
        }
    }
}

} // verus!
