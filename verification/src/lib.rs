//! A primary–replica key-value replication library.
//!
//! A single primary node accepts writes and pushes them to a set of
//! replicas over a line-based text protocol. The crate provides:
//!
//! - [`store::KVStore`]: the key→value map each node owns;
//! - [`topology::ReplicaSet`]: the primary's registry of replica addresses;
//! - [`protocol::Message`]: the wire messages, with a verified codec;
//! - [`primary`] and [`replica`]: the per-node service logic, from
//!   received lines and local writes to state changes and outgoing bytes;
//! - [`fib`], [`queue`], [`spsc_queue`]: small self-contained utilities.
//!
//! All network and console I/O lives outside this crate; the library works
//! on plain values (lines in, state changes and outgoing bytes out), and
//! every function here carries a verified contract.

pub mod fib;
pub mod protocol;
pub mod store;
pub mod topology;
pub mod primary;
pub mod replica;
pub mod queue;
pub mod spsc_queue;
