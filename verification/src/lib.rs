//! A verified core for a family of distributed-systems node processes.
//!
//! Each node exchanges structured messages with peer nodes and with a test
//! driver. The core here is pure: handlers map a node's state and an inbound
//! message to a new state and a list of messages to emit; periodic duties
//! (flushing gossip batches, retrying unacknowledged messages) are functions
//! the surrounding runtime calls on its tickers. Framing, the async runtime,
//! and standard I/O live outside the library.

pub mod counter;
pub mod gossip;
pub mod log;
pub mod msg;
pub mod node;
pub mod rpc;
pub mod strnum;
pub mod topology;
