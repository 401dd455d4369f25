//! TCP streams.

use smoltcp::iface::SocketHandle;
use vstd::prelude::*;

use crate::addr::IpEndpoint;
use crate::engine::socket_set::SocketModel;
use crate::engine::tcp_socket::{self, TcpModel, TcpNotWritable, TcpRecvError};
use crate::model::{lemma_with_socket, SocketId, StackModel};
use crate::model::tcp::lemma_with_tcp_entry;
use crate::session::manager::TcpEntry;
use crate::session::types::SessionKey;
use crate::state::{same_ids, Core};
use crate::InterfaceId;

verus! {

/// What came of an attempt to read.
#[derive(Debug, Clone, Copy, PartialEq, Eq, Structural)]
pub enum ReadOutcome {
    /// The interface is gone.
    Gone,
    /// So many octets were read.
    Data(usize),
    /// The application has closed its half, or the connection is over.
    Eof,
    /// Nothing can be read now; later it may.
    WouldBlock,
}

/// What came of an attempt to write.
#[derive(Debug, Clone, Copy, PartialEq, Eq, Structural)]
pub enum WriteOutcome {
    /// The interface is gone.
    Gone,
    /// So many octets were written.
    Written(usize),
    /// The connection is over.
    Closed,
    /// Nothing can be written now; later it may.
    WouldBlock,
}

impl TcpModel {
    /// What comes of an attempt to read up to `room` octets.
    pub open spec fn read_outcome(self, room: nat) -> ReadOutcome {
        if self.may_recv() {
            if self.rx.len() == 0 || room == 0 {
                ReadOutcome::WouldBlock
            } else if self.rx.len() <= room {
                ReadOutcome::Data(self.rx.len() as usize)
            } else {
                ReadOutcome::Data(room as usize)
            }
        } else if self.rx_fin || !self.phase.open() {
            ReadOutcome::Eof
        } else {
            ReadOutcome::WouldBlock
        }
    }

    /// What comes of an attempt to write `n` octets.
    pub open spec fn write_outcome(self, n: nat) -> WriteOutcome {
        let room = self.tx_capacity - self.tx.len();
        if self.may_send() {
            if n == 0 || room == 0 {
                WriteOutcome::WouldBlock
            } else if n <= room {
                WriteOutcome::Written(n as usize)
            } else {
                WriteOutcome::Written(room as usize)
            }
        } else if !self.phase.open() {
            WriteOutcome::Closed
        } else {
            WriteOutcome::WouldBlock
        }
    }
}

/// A fully established TCP connection, terminated by the stack.
///
/// Data read through the stream is what the peer (the application on the
/// intercepted interface) sent; data written is delivered to that peer.
#[derive(Debug)]
pub struct WayTcpStream {
    pub interface: InterfaceId,
    pub key: SessionKey,
    pub handle: SocketHandle,
    pub src_addr: IpEndpoint,
    pub dst_addr: IpEndpoint,
}

impl WayTcpStream {
    /// The stream of a TCP session.
    pub open spec fn of_session(m: StackModel, key: SessionKey) -> WayTcpStream {
        WayTcpStream {
            interface: key.interface,
            key,
            handle: m.tcp[key].handle,
            src_addr: key.src,
            dst_addr: key.dst,
        }
    }

    pub fn new(
        interface: InterfaceId,
        key: SessionKey,
        handle: SocketHandle,
        src_addr: IpEndpoint,
        dst_addr: IpEndpoint,
    ) -> (stream: WayTcpStream)
        ensures
            stream == (WayTcpStream { interface, key, handle, src_addr, dst_addr }),
    {
        WayTcpStream { interface, key, handle, src_addr, dst_addr }
    }

    /// The address of the local application this stream is connected to.
    pub fn src_addr(&self) -> (addr: IpEndpoint)
        ensures
            addr == self.src_addr,
    {
        self.src_addr
    }

    /// The destination address the application originally wanted to reach.
    pub fn dst_addr(&self) -> (addr: IpEndpoint)
        ensures
            addr == self.dst_addr,
    {
        self.dst_addr
    }

    /// The interface the connection was received on.
    pub fn interface_id(&self) -> (id: InterfaceId)
        ensures
            id == self.interface,
    {
        self.interface
    }

    /// The socket of the stream.
    pub open spec fn socket(self) -> SocketId {
        SocketId { interface: self.interface, handle: self.handle }
    }

    /// If the interface is there, so is the socket.
    pub open spec fn attached(self, m: StackModel) -> bool {
        m.has_interface(self.interface) ==> m.sockets.contains_key(self.socket())
            && m.sockets[self.socket()] is Tcp
    }

    /// The stream is the application's end of what the stack knows: the stack has the
    /// session, with the same socket, and knows of the application's interest.
    pub open spec fn holds(self, m: StackModel) -> bool {
        &&& self.interface == self.key.interface
        &&& m.tcp.contains_key(self.key)
        &&& m.tcp[self.key].handle == self.handle
        &&& !m.tcp[self.key].orphaned
    }

    /// What the socket holds.
    pub open spec fn content(self, m: StackModel) -> TcpModel {
        m.sockets[self.socket()]->Tcp_0
    }

    /// Reads what the application sent, as much as there is and fits into `buf`.
    pub fn poll_read(&self, core: &mut Core, buf: &mut [u8]) -> (outcome: ReadOutcome)
        requires
            old(core).wf(),
            self.attached(old(core)@),
        ensures
            final(core).wf(),
            final(buf)@.len() == old(buf)@.len(),
            if !old(core)@.has_interface(self.interface) {
                &&& outcome is Gone
                &&& final(core)@ == old(core)@
                &&& final(buf)@ == old(buf)@
            } else {
                let before = self.content(old(core)@);
                &&& outcome == before.read_outcome(old(buf)@.len())
                &&& match outcome {
                    ReadOutcome::Data(n) => {
                        &&& final(buf)@ == before.rx.take(n as int) + old(buf)@.skip(n as int)
                        &&& final(core)@ == old(core)@.with_socket(
                            self.socket(),
                            SocketModel::Tcp(TcpModel { rx: before.rx.skip(n as int), ..before }),
                        )
                    },
                    _ => final(buf)@ == old(buf)@ && final(core)@ == old(core)@,
                }
            },
    {
        let ghost m = core@;
        let slot: usize = match core.slot_index(self.interface) {
            Some(slot) => slot,
            None => return ReadOutcome::Gone,
        };
        let socket = core.tcp_socket_mut(slot, self.handle);
        let result = tcp_socket::recv_slice(socket, buf);
        let open: bool = tcp_socket::is_open(socket);
        proof {
            lemma_with_socket(m, self.socket(), core@.sockets[self.socket()]);
            let before = self.content(m);
            if let Ok(n) = result {
                assert(n == 0 ==> before.rx.skip(0) =~= before.rx);
                assert(n == 0 ==> before.rx.take(0) + old(buf)@.skip(0) =~= old(buf)@);
            }
            assert(m.with_socket(self.socket(), SocketModel::Tcp(before)) =~= m);
        }
        match result {
            Ok(n) => {
                if n > 0 {
                    ReadOutcome::Data(n)
                } else {
                    ReadOutcome::WouldBlock
                }
            },
            Err(TcpRecvError::Finished) => ReadOutcome::Eof,
            Err(TcpRecvError::InvalidState) => {
                if !open {
                    // Closed or reset before any data was read.
                    ReadOutcome::Eof
                } else {
                    ReadOutcome::WouldBlock
                }
            },
        }
    }

    /// Writes to the application, as much of `data` as there is room for.
    pub fn poll_write(&self, core: &mut Core, data: &[u8]) -> (outcome: WriteOutcome)
        requires
            old(core).wf(),
            self.attached(old(core)@),
        ensures
            final(core).wf(),
            if !old(core)@.has_interface(self.interface) {
                outcome is Gone && final(core)@ == old(core)@
            } else {
                let before = self.content(old(core)@);
                &&& outcome == before.write_outcome(data@.len())
                &&& outcome matches WriteOutcome::Written(n) ==> 1 <= n <= data@.len()
                &&& final(core)@ == match outcome {
                    WriteOutcome::Written(n) => old(core)@.with_socket(
                        self.socket(),
                        SocketModel::Tcp(
                            TcpModel { tx: before.tx + data@.take(n as int), ..before },
                        ),
                    ),
                    _ => old(core)@,
                }
            },
    {
        let ghost m = core@;
        let slot: usize = match core.slot_index(self.interface) {
            Some(slot) => slot,
            None => return WriteOutcome::Gone,
        };
        let socket = core.tcp_socket_mut(slot, self.handle);
        let result = tcp_socket::send_slice(socket, data);
        let open: bool = tcp_socket::is_open(socket);
        proof {
            lemma_with_socket(m, self.socket(), core@.sockets[self.socket()]);
            let before = self.content(m);
            if let Ok(n) = result {
                assert(n == 0 ==> before.tx + data@.take(0) =~= before.tx);
            }
            assert(m.with_socket(self.socket(), SocketModel::Tcp(before)) =~= m);
        }
        match result {
            Ok(n) => {
                if n > 0 {
                    WriteOutcome::Written(n)
                } else {
                    WriteOutcome::WouldBlock
                }
            },
            Err(TcpNotWritable) => {
                if !open {
                    WriteOutcome::Closed
                } else {
                    WriteOutcome::WouldBlock
                }
            },
        }
    }

    /// Closes the writing half: what has been written is still delivered.
    pub fn poll_shutdown(&self, core: &mut Core)
        requires
            old(core).wf(),
            self.attached(old(core)@),
        ensures
            final(core).wf(),
            final(core)@ == self.after_shutdown(old(core)@),
            same_ids(old(core).slots@, final(core).slots@),
            final(core).manager == old(core).manager,
    {
        let ghost m = core@;
        if let Some(slot) = core.slot_index(self.interface) {
            let socket = core.tcp_socket_mut(slot, self.handle);
            if tcp_socket::is_open(socket) {
                tcp_socket::close(socket);
            }
            proof {
                lemma_with_socket(m, self.socket(), core@.sockets[self.socket()]);
                assert(core@ =~= self.after_shutdown(m));
            }
        }
    }

    /// The state after the writing half has been closed.
    pub open spec fn after_shutdown(self, m: StackModel) -> StackModel {
        if m.has_interface(self.interface) && self.content(m).phase.open() {
            m.with_socket(self.socket(), SocketModel::Tcp(self.content(m).closed()))
        } else {
            m
        }
    }

    /// The state after the application has let go of the stream.
    pub open spec fn after_drop(self, m: StackModel) -> StackModel {
        if m.tcp.contains_key(self.key) {
            let closed = self.after_shutdown(m);
            StackModel {
                tcp: m.tcp.insert(self.key, TcpEntry { orphaned: true, ..m.tcp[self.key] }),
                ..closed
            }
        } else {
            m
        }
    }

    /// Lets go of the stream. The socket stays in the set until the connection is
    /// fully closed; it is reclaimed in the round after that.
    pub fn dropped(&self, core: &mut Core)
        requires
            old(core).wf(),
            old(core)@.tcp.contains_key(self.key) ==> self.attached(old(core)@),
        ensures
            final(core).wf(),
            final(core)@ == self.after_drop(old(core)@),
    {
        let ghost m = core@;
        if core.manager.tcp.contains_key(&self.key) {
            self.poll_shutdown(core);
            let ghost closed = core@;
            if let Some(entry) = core.manager.tcp.get_mut(&self.key) {
                entry.orphaned = true;
            }
            proof {
                assert(core@ =~= self.after_drop(m));
                lemma_with_tcp_entry(closed, self.key, core@.tcp[self.key]);
            }
        }
    }
}

} // verus!
