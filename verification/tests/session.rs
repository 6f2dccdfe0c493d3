use pubsub::protocol::{Command, ParseError};
use pubsub::server::{Reaction, Recipient, Session, Sink, State, Topics};

fn text(s: &str) -> String {
    s.to_string()
}

fn sink(id: u64) -> Sink {
    Sink { id }
}

fn sorted(mut list: Vec<Recipient>) -> Vec<(String, u64)> {
    list.sort_by(|a, b| a.key.cmp(&b.key));
    list.into_iter().map(|r| (r.key, r.sink.id)).collect()
}

fn pairs(list: &[(&str, u64)]) -> Vec<(String, u64)> {
    list.iter().map(|(k, id)| (k.to_string(), *id)).collect()
}

fn delivery(reaction: Reaction) -> (String, String, Vec<(String, u64)>) {
    match reaction {
        Reaction::Deliver(topic, broadcast) => {
            (topic, broadcast.payload, sorted(broadcast.recipients))
        }
        other => panic!("no delivery: {:?}", other),
    }
}

#[test]
fn session_new_has_a_fresh_uuid_key() {
    let a = Session::new(sink(1));
    let b = Session::new(sink(2));
    assert_eq!(a.state(), State::Active);
    assert_eq!(a.sink(), sink(1));
    assert_eq!(b.sink(), sink(2));
    assert_ne!(a.user_key(), b.user_key());
    for key in [a.user_key(), b.user_key()] {
        assert_eq!(key.chars().count(), 36);
        for (i, c) in key.chars().enumerate() {
            if i == 8 || i == 13 || i == 18 || i == 23 {
                assert_eq!(c, '-');
            } else {
                assert!(matches!(c, '0'..='9' | 'a'..='f'));
            }
        }
        assert_eq!(key.chars().nth(14), Some('4'));
    }
}

#[test]
fn session_with_key_starts_active() {
    let session = Session::with_key(text("u1"), sink(3));
    assert_eq!(session.user_key(), "u1");
    assert_eq!(session.sink(), sink(3));
    assert_eq!(session.state(), State::Active);
}

#[test]
fn session_subscribes_under_its_key() {
    let mut topics = Topics::new();
    let mut session = Session::with_key(text("u1"), sink(1));
    assert_eq!(session.receive(&mut topics, "s:A\n"), Reaction::Idle);
    assert_eq!(session.receive(&mut topics, "s:B\r\n"), Reaction::Idle);
    assert_eq!(topics.len(), 2);
    assert_eq!(topics.topic("A").unwrap().sink_of("u1"), Some(sink(1)));
    assert_eq!(topics.topic("B").unwrap().sink_of("u1"), Some(sink(1)));
}

#[test]
fn session_unsubscribes_its_key_only() {
    let mut topics = Topics::new();
    let mut one = Session::with_key(text("u1"), sink(1));
    let mut two = Session::with_key(text("u2"), sink(2));
    one.receive(&mut topics, "s:A\n");
    two.receive(&mut topics, "s:A\n");
    assert_eq!(one.receive(&mut topics, "u:A\n"), Reaction::Idle);
    assert_eq!(sorted(topics.topic("A").unwrap().subscribers()), pairs(&[("u2", 2)]));
    assert_eq!(one.receive(&mut topics, "u:A\n"), Reaction::Idle);
    assert_eq!(one.receive(&mut topics, "u:nowhere\n"), Reaction::Idle);
    assert_eq!(sorted(topics.topic("A").unwrap().subscribers()), pairs(&[("u2", 2)]));
    assert_eq!(topics.len(), 1);
}

#[test]
fn session_publish_goes_to_every_subscriber() {
    let mut topics = Topics::new();
    let mut sessions: Vec<Session> = Vec::new();
    for n in 0..5u64 {
        let mut session = Session::with_key(format!("u{}", n), sink(n));
        session.receive(&mut topics, "s:T\n");
        sessions.push(session);
    }
    let mut outsider = Session::with_key(text("x"), sink(50));
    outsider.receive(&mut topics, "s:elsewhere\n");
    let mut publisher = Session::with_key(text("key"), sink(99));
    let reaction = publisher.receive(&mut topics, "p:T:hi\n");
    assert_eq!(
        delivery(reaction),
        (
            text("T"),
            text("m:T:key:hi"),
            pairs(&[("u0", 0), ("u1", 1), ("u2", 2), ("u3", 3), ("u4", 4)])
        )
    );
}

#[test]
fn session_publish_keeps_separators_of_the_message() {
    let mut topics = Topics::new();
    let mut session = Session::with_key(text("u1"), sink(1));
    session.receive(&mut topics, "s:t\n");
    let reaction = session.receive(&mut topics, "p:t:hello:world\n");
    assert_eq!(delivery(reaction), (text("t"), text("m:t:u1:hello:world"), pairs(&[("u1", 1)])));
}

#[test]
fn session_publish_to_an_unknown_topic_is_silent() {
    let mut topics = Topics::new();
    let mut session = Session::with_key(text("u1"), sink(1));
    assert_eq!(session.receive(&mut topics, "p:T:hi\n"), Reaction::Idle);
    assert_eq!(topics.len(), 0);
}

#[test]
fn session_identity_renames_in_every_topic() {
    let mut topics = Topics::new();
    let mut session = Session::with_key(text("u1"), sink(1));
    session.receive(&mut topics, "s:A\n");
    session.receive(&mut topics, "s:B\n");
    assert_eq!(session.receive(&mut topics, "i:u2\n"), Reaction::Idle);
    assert_eq!(session.user_key(), "u2");
    assert_eq!(sorted(topics.topic("A").unwrap().subscribers()), pairs(&[("u2", 1)]));
    assert_eq!(sorted(topics.topic("B").unwrap().subscribers()), pairs(&[("u2", 1)]));
    let reaction = session.receive(&mut topics, "p:A:hello\n");
    assert_eq!(delivery(reaction), (text("A"), text("m:A:u2:hello"), pairs(&[("u2", 1)])));
    let mut stale = Session::with_key(text("u1"), sink(7));
    stale.receive(&mut topics, "u:A\n");
    let reaction = stale.receive(&mut topics, "p:B:late\n");
    assert_eq!(delivery(reaction), (text("B"), text("m:B:u1:late"), pairs(&[("u2", 1)])));
}

#[test]
fn session_identity_before_any_subscription() {
    let mut topics = Topics::new();
    let mut session = Session::new(sink(1));
    assert_eq!(session.receive(&mut topics, "i:alice\n"), Reaction::Idle);
    assert_eq!(session.user_key(), "alice");
    session.receive(&mut topics, "s:A\n");
    assert_eq!(sorted(topics.topic("A").unwrap().subscribers()), pairs(&[("alice", 1)]));
}

#[test]
fn session_ignores_a_message_command() {
    let mut topics = Topics::new();
    let mut session = Session::with_key(text("u1"), sink(1));
    session.receive(&mut topics, "s:A\n");
    assert_eq!(session.receive(&mut topics, "m:A:u1:hello\n"), Reaction::Idle);
    assert_eq!(
        session.apply(&mut topics, Command::Message(text("A"), text("x"), text("y"))),
        Reaction::Idle
    );
    assert_eq!(session.user_key(), "u1");
    assert_eq!(sorted(topics.topic("A").unwrap().subscribers()), pairs(&[("u1", 1)]));
}

#[test]
fn session_reports_a_line_that_is_no_command() {
    let mut topics = Topics::new();
    let mut session = Session::with_key(text("u1"), sink(1));
    session.receive(&mut topics, "s:A\n");
    assert_eq!(
        session.receive(&mut topics, "user\n"),
        Reaction::Report(ParseError::new(text("user")))
    );
    assert_eq!(
        session.receive(&mut topics, "p:A\r\n"),
        Reaction::Report(ParseError::new(text("p:A")))
    );
    assert_eq!(session.receive(&mut topics, ""), Reaction::Report(ParseError::new(text(""))));
    assert_eq!(session.state(), State::Active);
    assert_eq!(session.user_key(), "u1");
    assert_eq!(sorted(topics.topic("A").unwrap().subscribers()), pairs(&[("u1", 1)]));
    let reaction = session.receive(&mut topics, "p:A:still here\n");
    assert_eq!(delivery(reaction), (text("A"), text("m:A:u1:still here"), pairs(&[("u1", 1)])));
}

#[test]
fn session_close_removes_its_key_from_every_topic() {
    let mut topics = Topics::new();
    let mut session = Session::with_key(text("u1"), sink(1));
    let mut other = Session::with_key(text("u2"), sink(2));
    session.receive(&mut topics, "s:A\n");
    session.receive(&mut topics, "s:B\n");
    other.receive(&mut topics, "s:B\n");
    session.close(&mut topics);
    assert_eq!(session.state(), State::Closed);
    assert_eq!(topics.len(), 2);
    assert_eq!(topics.topic("A").unwrap().sink_of("u1"), None);
    assert_eq!(topics.topic("B").unwrap().sink_of("u1"), None);
    let reaction = other.receive(&mut topics, "p:A:hi\n");
    assert_eq!(delivery(reaction), (text("A"), text("m:A:u2:hi"), pairs(&[])));
    let reaction = other.receive(&mut topics, "p:B:hi\n");
    assert_eq!(delivery(reaction), (text("B"), text("m:B:u2:hi"), pairs(&[("u2", 2)])));
}

#[test]
fn session_close_after_a_rename_removes_the_new_key() {
    let mut topics = Topics::new();
    let mut session = Session::new(sink(1));
    session.receive(&mut topics, "s:A\n");
    session.receive(&mut topics, "i:bob\n");
    session.receive(&mut topics, "s:B\n");
    session.close(&mut topics);
    assert!(topics.topic("A").unwrap().subscribers().is_empty());
    assert!(topics.topic("B").unwrap().subscribers().is_empty());
}

#[test]
fn session_closed_ignores_every_line() {
    let mut topics = Topics::new();
    let mut session = Session::with_key(text("u1"), sink(1));
    let mut other = Session::with_key(text("u2"), sink(2));
    other.receive(&mut topics, "s:A\n");
    session.close(&mut topics);
    assert_eq!(session.receive(&mut topics, "s:A\n"), Reaction::Idle);
    assert_eq!(session.receive(&mut topics, "p:A:hi\n"), Reaction::Idle);
    assert_eq!(session.receive(&mut topics, "i:u2\n"), Reaction::Idle);
    assert_eq!(session.receive(&mut topics, "garbage\n"), Reaction::Idle);
    assert_eq!(session.apply(&mut topics, Command::Subscribe(text("A"))), Reaction::Idle);
    assert_eq!(session.user_key(), "u1");
    assert_eq!(sorted(topics.topic("A").unwrap().subscribers()), pairs(&[("u2", 2)]));
}

#[test]
fn session_close_twice_changes_nothing_more() {
    let mut topics = Topics::new();
    let mut session = Session::with_key(text("u1"), sink(1));
    session.receive(&mut topics, "s:A\n");
    session.close(&mut topics);
    let mut successor = Session::with_key(text("u1"), sink(9));
    successor.receive(&mut topics, "s:A\n");
    session.close(&mut topics);
    assert_eq!(session.state(), State::Closed);
    assert_eq!(sorted(topics.topic("A").unwrap().subscribers()), pairs(&[("u1", 9)]));
}

#[test]
fn session_resubscribe_under_a_taken_key_keeps_the_old_sink() {
    let mut topics = Topics::new();
    let mut old = Session::with_key(text("bob"), sink(1));
    let mut new = Session::with_key(text("bob"), sink(2));
    old.receive(&mut topics, "s:A\n");
    new.receive(&mut topics, "s:A\n");
    assert_eq!(sorted(topics.topic("A").unwrap().subscribers()), pairs(&[("bob", 1)]));
}
