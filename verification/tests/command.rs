use pubsub::protocol::{Command, ParseError};

fn text(s: &str) -> String {
    s.to_string()
}

#[test]
fn parse_ok() {
    Command::parse("i:user").unwrap();
    Command::parse("s:topic").unwrap();
    Command::parse("u:topic").unwrap();
    Command::parse("p:topic:hello world").unwrap();
}

#[test]
#[should_panic]
fn parse_panic() {
    Command::parse("user").unwrap();
}

#[test]
fn parse_gives_each_variant() {
    assert_eq!(Command::parse("i:alice"), Ok(Command::Identity(text("alice"))));
    assert_eq!(Command::parse("s:topic"), Ok(Command::Subscribe(text("topic"))));
    assert_eq!(Command::parse("u:topic"), Ok(Command::Unsubscribe(text("topic"))));
    assert_eq!(
        Command::parse("p:topic:hello world"),
        Ok(Command::Publish(text("topic"), text("hello world")))
    );
    assert_eq!(
        Command::parse("m:topic:user:hello"),
        Ok(Command::Message(text("topic"), text("user"), text("hello")))
    );
}

#[test]
fn parse_leaves_separators_in_the_last_field() {
    assert_eq!(
        Command::parse("p:t:hello:world"),
        Ok(Command::Publish(text("t"), text("hello:world")))
    );
    assert_eq!(
        Command::parse("m:t:u:a:b:c"),
        Ok(Command::Message(text("t"), text("u"), text("a:b:c")))
    );
    assert_eq!(Command::parse("i:a:b"), Ok(Command::Identity(text("a:b"))));
    assert_eq!(Command::parse("s::"), Ok(Command::Subscribe(text(":"))));
}

#[test]
fn parse_rejects_what_is_no_command() {
    assert_eq!(Command::parse("user"), Err(ParseError::new(text("user"))));
    assert_eq!(Command::parse(""), Err(ParseError::new(text(""))));
    assert_eq!(Command::parse("x:y"), Err(ParseError::new(text("x:y"))));
    assert_eq!(Command::parse(":"), Err(ParseError::new(text(":"))));
    assert_eq!(Command::parse(":i:user"), Err(ParseError::new(text(":i:user"))));
    assert_eq!(Command::parse("I:user"), Err(ParseError::new(text("I:user"))));
    assert_eq!(Command::parse("ii:user"), Err(ParseError::new(text("ii:user"))));
    assert_eq!(Command::parse(" i:user"), Err(ParseError::new(text(" i:user"))));
}

#[test]
fn parse_rejects_too_few_fields() {
    assert_eq!(Command::parse("i"), Err(ParseError::new(text("i"))));
    assert_eq!(Command::parse("p:topic"), Err(ParseError::new(text("p:topic"))));
    assert_eq!(Command::parse("m:topic"), Err(ParseError::new(text("m:topic"))));
    assert_eq!(Command::parse("m:topic:user"), Err(ParseError::new(text("m:topic:user"))));
}

#[test]
fn parse_accepts_empty_fields() {
    assert_eq!(Command::parse("i:"), Ok(Command::Identity(text(""))));
    assert_eq!(Command::parse("p::"), Ok(Command::Publish(text(""), text(""))));
    assert_eq!(Command::parse("m:::"), Ok(Command::Message(text(""), text(""), text(""))));
}

#[test]
fn parse_takes_one_line_terminator_off() {
    assert_eq!(Command::parse("i:bob\n"), Ok(Command::Identity(text("bob"))));
    assert_eq!(Command::parse("i:bob\r\n"), Ok(Command::Identity(text("bob"))));
    assert_eq!(Command::parse("i:bob\r"), Ok(Command::Identity(text("bob"))));
    assert_eq!(Command::parse("i:bob\n\n"), Ok(Command::Identity(text("bob\n"))));
    assert_eq!(Command::parse("i:bob\r\r\n"), Ok(Command::Identity(text("bob\r"))));
    assert_eq!(Command::parse("i:bob\n\r"), Ok(Command::Identity(text("bob\n"))));
}

#[test]
fn parse_keeps_other_whitespace() {
    assert_eq!(Command::parse("i:bob \n"), Ok(Command::Identity(text("bob "))));
    assert_eq!(Command::parse("i:bob\t"), Ok(Command::Identity(text("bob\t"))));
    assert_eq!(
        Command::parse("p: t : m \r\n"),
        Ok(Command::Publish(text(" t "), text(" m ")))
    );
}

#[test]
fn parse_error_holds_the_line_without_its_terminator() {
    let error = Command::parse("user\r\n").unwrap_err();
    assert_eq!(error.description(), "user");
    let error = Command::parse("p:topic\n").unwrap_err();
    assert_eq!(error.description(), "p:topic");
    let error = Command::parse("user \n").unwrap_err();
    assert_eq!(error.description(), "user ");
    let error = Command::parse("\n").unwrap_err();
    assert_eq!(error.description(), "");
}

#[test]
fn parse_counts_characters_not_bytes() {
    assert_eq!(
        Command::parse("p:tópico:héllo wörld ✓\n"),
        Ok(Command::Publish(text("tópico"), text("héllo wörld ✓")))
    );
    assert_eq!(Command::parse("é:x"), Err(ParseError::new(text("é:x"))));
    assert_eq!(
        Command::parse("m:日本:ユーザー:こんにちは:世界"),
        Ok(Command::Message(text("日本"), text("ユーザー"), text("こんにちは:世界")))
    );
}

#[test]
fn parse_error_message() {
    let error = ParseError::new(text("user"));
    assert_eq!(error.description(), "user");
    assert_eq!(error.to_string(), "ParseError: - user");
    assert_eq!(ParseError::new(text("")).to_string(), "ParseError: - ");
}

#[test]
fn serialize_writes_each_variant() {
    assert_eq!(Command::Identity(text("user")).serialize(), "i:user");
    assert_eq!(Command::Subscribe(text("topic")).serialize(), "s:topic");
    assert_eq!(Command::Unsubscribe(text("topic")).serialize(), "u:topic");
    assert_eq!(Command::Publish(text("topic"), text("hello")).serialize(), "p:topic:hello");
    assert_eq!(
        Command::Message(text("topic"), text("user"), text("hello")).serialize(),
        "m:topic:user:hello"
    );
    assert_eq!(Command::Publish(text(""), text("")).serialize(), "p::");
}

#[test]
fn round_trip_with_separators_in_the_payload() {
    let commands = vec![
        Command::Identity(text("a:b")),
        Command::Subscribe(text("news:sports")),
        Command::Unsubscribe(text(":")),
        Command::Publish(text("t"), text("hello:world::")),
        Command::Message(text("t"), text("u"), text(":a:b")),
        Command::Publish(text(""), text("")),
        Command::Message(text("t\n"), text("u\r"), text("x y")),
    ];
    for command in commands {
        assert_eq!(Command::parse(&command.serialize()), Ok(command));
    }
}

#[test]
fn round_trip_is_lost_on_an_early_separator() {
    let command = Command::Publish(text("a:b"), text("m"));
    assert_eq!(
        Command::parse(&command.serialize()),
        Ok(Command::Publish(text("a"), text("b:m")))
    );
    let command = Command::Message(text("t"), text("u:v"), text("m"));
    assert_eq!(
        Command::parse(&command.serialize()),
        Ok(Command::Message(text("t"), text("u"), text("v:m")))
    );
}

#[test]
fn round_trip_is_lost_on_a_final_terminator() {
    let command = Command::Identity(text("bob\n"));
    assert_eq!(Command::parse(&command.serialize()), Ok(Command::Identity(text("bob"))));
    let command = Command::Publish(text("t"), text("m\r"));
    assert_eq!(
        Command::parse(&command.serialize()),
        Ok(Command::Publish(text("t"), text("m")))
    );
}

#[test]
fn serialize_gives_back_the_parsed_line() {
    let lines = vec!["i:user", "s:a:b", "u:", "p:t:x:y:z", "m:t:u:m", "p:t:m\n\n", "i:bob \r\n"];
    for line in lines {
        let command = Command::parse(line).unwrap();
        let stripped = line.strip_suffix('\n').unwrap_or(line);
        let stripped = stripped.strip_suffix('\r').unwrap_or(stripped);
        assert_eq!(command.serialize(), stripped);
    }
}
