//! Buffering for UDP transports.
//!
//! A transport that sends or receives UDP packets is put behind bounded channels, so that a caller
//! does not wait for the socket unless a channel is full (sending) or empty (receiving). This crate
//! holds every decision such a pair of buffers takes: which channel a packet goes to, what is handed
//! to the transport in one go, how a receive error is answered, how long to wait before the next
//! attempt, and what a reader gets. Awaiting the socket, the channels and the clock is left to the
//! tasks that drive it.
//!
//! * [`packet`]: packets and addresses.
//! * [`io_error`]: receive errors and how they are classified.
//! * [`channel`]: the bounded channels.
//! * [`backoff`]: the delays between two receive attempts.
//! * [`send`] and [`receive`]: the two buffers.
//! * [`send_laws`] and [`receive_laws`]: what holds of whole runs of the two buffers.
pub mod backoff;
pub mod channel;
pub mod io_error;
pub mod packet;
pub mod receive;
pub mod receive_laws;
pub mod send;
pub mod send_laws;
