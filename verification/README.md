# way-netstack

A userspace TCP/IP network stack for transparent proxying. Raw IP packets of one or
more virtual interfaces become TCP streams and UDP pseudo-sessions, and what the
application writes to those becomes IP packets again. The protocol engine is
[`smoltcp`](https://github.com/smoltcp-rs/smoltcp).

The library is written in [Verus](https://github.com/verus-lang/verus): every function
states what it does in `requires` and `ensures` clauses, and these are proved.

## Layout

- `src/` is the verified library.
  - `model` is the stack as a mathematical value: sessions, sockets, queues, the account
    of buffer bytes, what keeps them consistent, and what each operation makes of them.
  - `flow` finds out which flow a packet belongs to; `admission` says which packets open
    sessions.
  - `runner` holds the two passes around a run of the engine, and the ways in and out.
  - `session`, `stream`, `state`, `device`, `table` are the data structures; `builder`
    configures and builds a stack.
  - `laws` proves what holds of the stack as a whole.
  - `engine` holds the calls into `smoltcp`, `bytes` and `std`. Their contracts are
    believed, not proved.
- `tests/` runs the library against a real `smoltcp` peer.
- `app/` is ordinary Rust around the library: tasks, channels, asynchronous streams, the
  device that the engine polls.

## One round

1. `queue_ingress` puts packets into the devices.
2. `pre_pass` opens a session for each flow that is new: a listening TCP socket for a
   SYN, a session on the socket of its destination for a datagram.
   A flow that a limit or the budget keeps out is told to the caller, and its SYN is
   taken out of the queue, so that the application tries again. A SYN for a destination
   that has a connection already is left to the engine, which rejects it.
3. The engine polls each interface.
4. `post_pass` hands over established TCP sessions, moves datagrams to their sessions,
   and reclaims what is finished or has been silent for too long.
5. `collect_egress` takes the packets that were produced.
