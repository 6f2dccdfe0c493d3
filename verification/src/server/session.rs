//! The session of one connection: its current user key, and what each line
//! that the connection sends does to the registry.
//!
//! A session does no input or output. The program that embeds it reads the
//! lines, hands each to [`Session::receive`] and carries out the
//! [`Reaction`] that comes back; when the connection ends it calls
//! [`Session::close`].

use crate::protocol::command::{parse_spec, serialize_spec, Command, CommandView, ParseError};
use crate::server::topics::{
    lists_exactly, registry_deleted, registry_renamed, registry_subscribed,
    registry_unsubscribed, Broadcast, Registry, Sink, Topics,
};
use uuid::Uuid;
use vstd::prelude::*;

verus! {

/// A lower-case hexadecimal digit.
pub open spec fn is_lower_hex(c: char) -> bool {
    ('0' <= c && c <= '9') || ('a' <= c && c <= 'f')
}

/// The hyphenated form of a UUID: 36 characters, of which the 9th, 14th,
/// 19th and 24th are hyphens and all others lower-case hexadecimal digits.
pub open spec fn is_hyphenated_uuid(s: Seq<char>) -> bool {
    &&& s.len() == 36
    &&& forall|i: int|
        0 <= i < 36 ==> if i == 8 || i == 13 || i == 18 || i == 23 {
            #[trigger] s[i] == '-'
        } else {
            is_lower_hex(s[i])
        }
}

/// A fresh user key: `uuid::Uuid::new_v4`, written in hyphenated form.
///
/// Trusted, not proved. The value is random, so the contract states only
/// the shape that the formatting gives every UUID. The call panics where
/// the operating system hands out no random bytes.
#[verifier::external_body]
fn fresh_user_key() -> (key: String)
    ensures
        is_hyphenated_uuid(key@),
{
    Uuid::new_v4().hyphenated().to_string()
}

/// Whether a session still reads commands.
#[derive(Clone, Copy, Debug, PartialEq, Eq, Structural)]
pub enum State {
    Active,
    Closed,
}

/// What a [`Session`] is, over plain values.
pub struct SessionView {
    pub user_key: Seq<char>,
    pub sink: Sink,
    pub state: State,
}

/// The state of one connection.
#[derive(Debug)]
pub struct Session {
    user_key: String,
    sink: Sink,
    state: State,
}

impl View for Session {
    type V = SessionView;

    closed spec fn view(&self) -> SessionView {
        SessionView { user_key: self.user_key@, sink: self.sink, state: self.state }
    }
}

/// What the caller is to do after a line has been handled.
#[derive(Debug, Clone, PartialEq, Eq)]
pub enum Reaction {
    /// Nothing.
    Idle,
    /// Write the broadcast's payload to each of its recipients. The string
    /// is the topic that was published to: a recipient whose write fails is
    /// to be reported with [`Topics::drop_sink`] on that topic.
    Deliver(String, Broadcast),
    /// Log the error. The peer gets no answer.
    Report(ParseError),
}

/// The session and the registry after an active session has taken a
/// command.
pub open spec fn step(session: SessionView, registry: Registry, command: CommandView) -> (
    SessionView,
    Registry,
) {
    match command {
        CommandView::Identity(new_key) => (
            SessionView { user_key: new_key, ..session },
            registry_renamed(registry, session.user_key, new_key),
        ),
        CommandView::Subscribe(topic) => (
            session,
            registry_subscribed(registry, topic, session.user_key, session.sink),
        ),
        CommandView::Unsubscribe(topic) => (
            session,
            registry_unsubscribed(registry, topic, session.user_key),
        ),
        CommandView::Publish(_, _) => (session, registry),
        CommandView::Message(_, _, _) => (session, registry),
    }
}

/// Whether `reaction` is what an active session owes for a command. Only a
/// publish to a known topic asks for writes: the message, as an `m` line
/// under the session's key, to each subscriber of the topic.
pub open spec fn answers(
    reaction: Reaction,
    session: SessionView,
    registry: Registry,
    command: CommandView,
) -> bool {
    match command {
        CommandView::Publish(topic, message) if registry.contains_key(topic) => {
            &&& reaction is Deliver
            &&& reaction->Deliver_0@ == topic
            &&& reaction->Deliver_1.payload@ == serialize_spec(
                CommandView::Message(topic, session.user_key, message),
            )
            &&& lists_exactly(reaction->Deliver_1.recipients@, registry[topic])
        },
        _ => reaction is Idle,
    }
}

impl Session {
    /// A session for a new connection, under a freshly generated key.
    pub fn new(sink: Sink) -> (session: Session)
        ensures
            is_hyphenated_uuid(session@.user_key),
            session@.sink == sink,
            session@.state == State::Active,
    {
        Session::with_key(fresh_user_key(), sink)
    }

    /// A session for a new connection, under the given key.
    pub fn with_key(user_key: String, sink: Sink) -> (session: Session)
        ensures
            session@ == (SessionView { user_key: user_key@, sink, state: State::Active }),
    {
        Session { user_key, sink, state: State::Active }
    }

    /// The key under which the session subscribes and publishes.
    pub fn user_key(&self) -> (key: &str)
        ensures
            key@ == self@.user_key,
    {
        self.user_key.as_str()
    }

    /// The sink of the session's connection.
    pub fn sink(&self) -> (sink: Sink)
        ensures
            sink == self@.sink,
    {
        self.sink
    }

    pub fn state(&self) -> (state: State)
        ensures
            state == self@.state,
    {
        self.state
    }

    /// Carries out one command. A closed session ignores it.
    pub fn apply(&mut self, topics: &mut Topics, command: Command) -> (reaction: Reaction)
        ensures
            old(self)@.state == State::Closed ==> {
                &&& final(self)@ == old(self)@
                &&& final(topics)@ == old(topics)@
                &&& reaction is Idle
            },
            old(self)@.state == State::Active ==> {
                &&& (final(self)@, final(topics)@) == step(old(self)@, old(topics)@, command@)
                &&& answers(reaction, old(self)@, old(topics)@, command@)
            },
    {
        if self.state == State::Closed {
            return Reaction::Idle;
        }
        match command {
            Command::Identity(new_user_key) => {
                topics.rename_user_key(self.user_key.clone(), new_user_key.clone());
                self.user_key = new_user_key;
                Reaction::Idle
            },
            Command::Subscribe(topic_key) => {
                topics.subscribe(topic_key, self.user_key.clone(), self.sink);
                Reaction::Idle
            },
            Command::Unsubscribe(topic_key) => {
                topics.unsubscribe(topic_key, self.user_key.clone());
                Reaction::Idle
            },
            Command::Publish(topic_key, message) => {
                let topic = topic_key.clone();
                match topics.publish(topic_key, self.user_key.clone(), message) {
                    Some(broadcast) => Reaction::Deliver(topic, broadcast),
                    None => Reaction::Idle,
                }
            },
            Command::Message(_, _, _) => Reaction::Idle,
        }
    }

    /// Handles one line from the connection: a command is carried out, and
    /// a line that is none is handed back for the log, with nothing
    /// changed. A closed session ignores the line.
    pub fn receive(&mut self, topics: &mut Topics, line: &str) -> (reaction: Reaction)
        ensures
            old(self)@.state == State::Closed ==> {
                &&& final(self)@ == old(self)@
                &&& final(topics)@ == old(topics)@
                &&& reaction is Idle
            },
            old(self)@.state == State::Active ==> match parse_spec(line@) {
                Ok(command) => {
                    &&& (final(self)@, final(topics)@) == step(old(self)@, old(topics)@, command)
                    &&& answers(reaction, old(self)@, old(topics)@, command)
                },
                Err(text) => {
                    &&& final(self)@ == old(self)@
                    &&& final(topics)@ == old(topics)@
                    &&& reaction is Report
                    &&& reaction->Report_0@ == text
                },
            },
    {
        if self.state == State::Closed {
            return Reaction::Idle;
        }
        match Command::parse(line) {
            Ok(command) => self.apply(topics, command),
            Err(error) => Reaction::Report(error),
        }
    }

    /// Ends the session: its key leaves every topic, and the session takes
    /// no further command. Closing a closed session changes nothing.
    pub fn close(&mut self, topics: &mut Topics)
        ensures
            final(self)@ == (SessionView { state: State::Closed, ..old(self)@ }),
            final(topics)@ == if old(self)@.state == State::Active {
                registry_deleted(old(topics)@, old(self)@.user_key)
            } else {
                old(topics)@
            },
            old(self)@.state == State::Active ==> forall|topic: Seq<char>| #[trigger]
                final(topics)@.contains_key(topic) ==> !final(topics)@[topic].contains_key(
                    old(self)@.user_key,
                ),
    {
        if self.state == State::Active {
            topics.delete_user_key(self.user_key.clone());
            self.state = State::Closed;
        }
    }
}

} // verus!
