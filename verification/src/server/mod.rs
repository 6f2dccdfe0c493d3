//! The broker's state: topics with their subscribers, and the sessions
//! that act on them.

mod assoc;
pub mod session;
pub mod topics;

pub use session::{Reaction, Session, SessionView, State};
pub use topics::{Broadcast, Recipient, Sink, Topic, Topics};
