# udp_buffer

Buffering for UDP transports, verified with Verus.

A sender puts packets into a bounded channel of their address family; a task takes them out and hands
them to the transport, one by one or many at once. Another task receives from the transport and keeps
the packets in a bounded channel until a reader asks for them. It retries after recoverable errors
with a delay that doubles from 10 ms up to 1 s, and passes a terminal error on after the packets that
came before it.

* `src/` decides: routing, batching, the answer to each receive error, delivery, and what a reader
  gets. `send_laws.rs` and `receive_laws.rs` prove what holds of whole runs. The trusted contracts on
  std and tokio are in `io_error.rs` and `channel.rs`.
* `app/` awaits the socket, the channels and the clock, and carries out what `src/` decides.
* `tests/` runs the library over real channels and a paused clock.
