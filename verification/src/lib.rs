//! A topic-based publish/subscribe broker core.
//!
//! The crate holds the two parts of the broker that carry its rules: the
//! line-oriented command codec in [`protocol`], and the topic registry
//! with the per-connection session state machine in [`server`]. Sockets,
//! threads and locks are left to the program that embeds the crate; the
//! library hands it the writes to perform and takes their outcome back.

pub mod protocol;
pub mod server;
