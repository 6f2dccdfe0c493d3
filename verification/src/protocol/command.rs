//! Commands of the wire protocol, with their encoder and decoder.
//!
//! A command is one line of text. Its opcode is a single letter, and each
//! field follows a `:`.
//!
//! ```text
//!  i:user                 client to server: from now on this connection is `user`
//!  s:topic                client to server: subscribe to `topic`
//!  u:topic                client to server: leave `topic`
//!  p:topic:message        client to server: publish `message` to `topic`
//!  m:topic:user:message   server to client: `user` published `message` to `topic`
//! ```
//!
//! The opcode and every field but the last end at the next `:`; the last
//! field runs to the end of the line and may hold any character.

use vstd::prelude::*;
use vstd::std_specs::iter::IteratorSpec;
use vstd::string::*;

verus! {

/// The field separator of the protocol.
pub open spec fn is_separator(c: char) -> bool {
    c == ':'
}

/// `i` is the position of the first separator in `s`.
pub open spec fn is_first_separator(s: Seq<char>, i: int) -> bool {
    &&& 0 <= i < s.len()
    &&& is_separator(s[i])
    &&& forall|j: int| 0 <= j < i ==> !is_separator(#[trigger] s[j])
}

/// Whether `s` holds a separator at all.
pub open spec fn has_separator(s: Seq<char>) -> bool {
    exists|i: int| is_first_separator(s, i)
}

/// The position of the first separator in `s`, where it has one.
pub open spec fn first_separator(s: Seq<char>) -> int {
    choose|i: int| is_first_separator(s, i)
}

/// One splitting step: what stands before the first separator and what
/// stands after it. `None` where `s` has no separator.
pub open spec fn split_once(s: Seq<char>) -> Option<(Seq<char>, Seq<char>)> {
    if has_separator(s) {
        let i = first_separator(s);
        Some((s.subrange(0, i), s.subrange(i + 1, s.len() as int)))
    } else {
        None
    }
}

/// A field that another field can follow: it holds no separator.
pub open spec fn is_inner_field(s: Seq<char>) -> bool {
    forall|j: int| 0 <= j < s.len() ==> !is_separator(#[trigger] s[j])
}

/// A sequence has at most one first separator.
pub proof fn lemma_first_separator_unique(s: Seq<char>, i: int, j: int)
    requires
        is_first_separator(s, i),
        is_first_separator(s, j),
    ensures
        i == j,
{
    if i < j {
        assert(!is_separator(s[i]));
    } else if j < i {
        assert(!is_separator(s[j]));
    }
}

/// Splitting `head + ":" + tail` gives back `head` and `tail`, as long as
/// `head` holds no separator.
pub proof fn lemma_split_once_of_join(head: Seq<char>, tail: Seq<char>)
    requires
        is_inner_field(head),
    ensures
        split_once(head + seq![':'] + tail) == Some((head, tail)),
{
    let s = head + seq![':'] + tail;
    let i = head.len() as int;
    assert(s[i] == ':');
    assert forall|j: int| 0 <= j < i implies !is_separator(#[trigger] s[j]) by {
        assert(s[j] == head[j]);
    }
    assert(is_first_separator(s, i));
    lemma_first_separator_unique(s, i, first_separator(s));
    assert(s.subrange(0, i) =~= head);
    assert(s.subrange(i + 1, s.len() as int) =~= tail);
}

/// A line without its terminator. One terminator is taken off the end:
/// `\r\n`, `\n` or `\r`. Nothing else is trimmed, and a second terminator
/// stays.
pub open spec fn strip_line_ending(line: Seq<char>) -> Seq<char> {
    let body = if line.len() > 0 && line.last() == '\n' {
        line.drop_last()
    } else {
        line
    };
    if body.len() > 0 && body.last() == '\r' {
        body.drop_last()
    } else {
        body
    }
}

/// What a [`Command`] is, over plain character sequences.
pub enum CommandView {
    Identity(Seq<char>),
    Subscribe(Seq<char>),
    Unsubscribe(Seq<char>),
    Publish(Seq<char>, Seq<char>),
    Message(Seq<char>, Seq<char>, Seq<char>),
}

/// The text of a command: the opcode, then each field behind a `:`.
pub open spec fn serialize_spec(c: CommandView) -> Seq<char> {
    match c {
        CommandView::Identity(user) => seq!['i', ':'] + user,
        CommandView::Subscribe(topic) => seq!['s', ':'] + topic,
        CommandView::Unsubscribe(topic) => seq!['u', ':'] + topic,
        CommandView::Publish(topic, message) => seq!['p', ':'] + topic + seq![':'] + message,
        CommandView::Message(topic, user, message) => seq!['m', ':'] + topic + seq![':'] + user
            + seq![':'] + message,
    }
}

/// The command that a line without its terminator stands for, if any.
///
/// The opcode is what stands before the first `:` and must be one of the
/// five letters. Each field but the last is peeled off by one more split;
/// the last is whatever is left, separators included.
pub open spec fn decode(text: Seq<char>) -> Option<CommandView> {
    match split_once(text) {
        None => None,
        Some((opcode, rest)) => if opcode.len() != 1 {
            None
        } else if opcode[0] == 'i' {
            Some(CommandView::Identity(rest))
        } else if opcode[0] == 's' {
            Some(CommandView::Subscribe(rest))
        } else if opcode[0] == 'u' {
            Some(CommandView::Unsubscribe(rest))
        } else if opcode[0] == 'p' {
            match split_once(rest) {
                Some((topic, message)) => Some(CommandView::Publish(topic, message)),
                None => None,
            }
        } else if opcode[0] == 'm' {
            match split_once(rest) {
                Some((topic, rest)) => match split_once(rest) {
                    Some((user, message)) => Some(CommandView::Message(topic, user, message)),
                    None => None,
                },
                None => None,
            }
        } else {
            None
        },
    }
}

/// What [`Command::parse`] makes of a line: the command it stands for, or
/// the line without its terminator as the error.
pub open spec fn parse_spec(line: Seq<char>) -> Result<CommandView, Seq<char>> {
    let text = strip_line_ending(line);
    match decode(text) {
        Some(c) => Ok(c),
        None => Err(text),
    }
}

/// A text that loses nothing when a line terminator is taken off its end:
/// it ends in neither `\n` nor `\r`.
pub open spec fn is_unterminated(s: Seq<char>) -> bool {
    s.len() == 0 || (s.last() != '\n' && s.last() != '\r')
}

/// The commands that the wire carries unchanged: no field but the last
/// holds a separator, and the last does not end in `\n` or `\r`.
pub open spec fn survives_wire(c: CommandView) -> bool {
    match c {
        CommandView::Identity(user) => is_unterminated(user),
        CommandView::Subscribe(topic) => is_unterminated(topic),
        CommandView::Unsubscribe(topic) => is_unterminated(topic),
        CommandView::Publish(topic, message) => is_inner_field(topic) && is_unterminated(message),
        CommandView::Message(topic, user, message) => is_inner_field(topic) && is_inner_field(user)
            && is_unterminated(message),
    }
}

/// A decoded command has no separator in any field but the last.
pub open spec fn has_inner_fields(c: CommandView) -> bool {
    match c {
        CommandView::Publish(topic, _) => is_inner_field(topic),
        CommandView::Message(topic, user, _) => is_inner_field(topic) && is_inner_field(user),
        _ => true,
    }
}

/// The two parts of a split, joined by a separator, are the text that was
/// split, and the first part holds no separator.
pub proof fn lemma_split_once_parts(s: Seq<char>)
    requires
        split_once(s).is_some(),
    ensures
        s == split_once(s).unwrap().0 + seq![':'] + split_once(s).unwrap().1,
        is_inner_field(split_once(s).unwrap().0),
{
    let i = first_separator(s);
    assert(is_first_separator(s, i));
    let head = s.subrange(0, i);
    let tail = s.subrange(i + 1, s.len() as int);
    assert(s =~= head + seq![':'] + tail);
    assert forall|j: int| 0 <= j < head.len() implies !is_separator(#[trigger] head[j]) by {
        assert(head[j] == s[j]);
    }
}

/// The text of a command ends in a terminator exactly if its last field
/// does.
proof fn lemma_serialized_ending(c: CommandView)
    ensures
        is_unterminated(serialize_spec(c)) <==> match c {
            CommandView::Identity(user) => is_unterminated(user),
            CommandView::Subscribe(topic) => is_unterminated(topic),
            CommandView::Unsubscribe(topic) => is_unterminated(topic),
            CommandView::Publish(_, message) => is_unterminated(message),
            CommandView::Message(_, _, message) => is_unterminated(message),
        },
{
    let text = serialize_spec(c);
    match c {
        CommandView::Identity(f) | CommandView::Subscribe(f) | CommandView::Unsubscribe(f)
        | CommandView::Publish(_, f) | CommandView::Message(_, _, f) => {
            if f.len() > 0 {
                assert(text.last() == f.last());
            } else {
                assert(text.last() == ':');
            }
        },
    }
}

/// Decoding the text of a command gives the command back, as long as no
/// field but the last holds a separator.
proof fn lemma_decode_serialized(c: CommandView)
    requires
        has_inner_fields(c),
    ensures
        decode(serialize_spec(c)) == Some(c),
{
    let text = serialize_spec(c);
    match c {
        CommandView::Identity(user) => {
            assert(text =~= seq!['i'] + seq![':'] + user);
            lemma_split_once_of_join(seq!['i'], user);
        },
        CommandView::Subscribe(topic) => {
            assert(text =~= seq!['s'] + seq![':'] + topic);
            lemma_split_once_of_join(seq!['s'], topic);
        },
        CommandView::Unsubscribe(topic) => {
            assert(text =~= seq!['u'] + seq![':'] + topic);
            lemma_split_once_of_join(seq!['u'], topic);
        },
        CommandView::Publish(topic, message) => {
            let rest = topic + seq![':'] + message;
            assert(text =~= seq!['p'] + seq![':'] + rest);
            lemma_split_once_of_join(seq!['p'], rest);
            lemma_split_once_of_join(topic, message);
        },
        CommandView::Message(topic, user, message) => {
            let tail = user + seq![':'] + message;
            let rest = topic + seq![':'] + tail;
            assert(text =~= seq!['m'] + seq![':'] + rest);
            lemma_split_once_of_join(seq!['m'], rest);
            lemma_split_once_of_join(topic, tail);
            lemma_split_once_of_join(user, message);
        },
    }
}

/// Where a text decodes to a command, the command's text is that text, and
/// no field of it but the last holds a separator.
proof fn lemma_decode_sound(text: Seq<char>)
    requires
        decode(text).is_some(),
    ensures
        serialize_spec(decode(text).unwrap()) == text,
        has_inner_fields(decode(text).unwrap()),
{
    lemma_split_once_parts(text);
    let (opcode, rest) = split_once(text).unwrap();
    assert(opcode =~= seq![opcode[0]]);
    if opcode[0] == 'p' {
        lemma_split_once_parts(rest);
        let (topic, message) = split_once(rest).unwrap();
        assert(text =~= seq!['p', ':'] + topic + seq![':'] + message);
    } else if opcode[0] == 'm' {
        lemma_split_once_parts(rest);
        let (topic, tail) = split_once(rest).unwrap();
        lemma_split_once_parts(tail);
        let (user, message) = split_once(tail).unwrap();
        assert(text =~= seq!['m', ':'] + topic + seq![':'] + user + seq![':'] + message);
    } else {
        assert(text =~= seq![opcode[0], ':'] + rest);
    }
}

/// Serializing is the inverse of parsing: a line that parses to a command
/// is, without its terminator, the text of that command, and no field of
/// the command but the last holds a separator. A line that does not parse
/// comes back in the error, without its terminator.
pub proof fn lemma_parse_then_serialize(line: Seq<char>)
    ensures
        match parse_spec(line) {
            Ok(c) => serialize_spec(c) == strip_line_ending(line) && has_inner_fields(c),
            Err(text) => text == strip_line_ending(line),
        },
{
    if decode(strip_line_ending(line)).is_some() {
        lemma_decode_sound(strip_line_ending(line));
    }
}

/// Round trip: parsing the text of a command gives the command back. This
/// holds of exactly the commands that survive the wire; a field with a
/// separator before the last one is split early, and a terminator at the
/// end of the last field is taken for the line's own.
pub proof fn lemma_serialize_then_parse(c: CommandView)
    ensures
        parse_spec(serialize_spec(c)) == Ok::<CommandView, Seq<char>>(c) <==> survives_wire(c),
{
    let text = serialize_spec(c);
    lemma_serialized_ending(c);
    if survives_wire(c) {
        assert(strip_line_ending(text) == text);
        lemma_decode_serialized(c);
    } else if parse_spec(text) == Ok::<CommandView, Seq<char>>(c) {
        lemma_parse_then_serialize(text);
        assert(strip_line_ending(text) == text);
        assert(is_unterminated(text));
    }
}

/// A command read from the wire parses back from its own text exactly if
/// the line held a single terminator, or none.
pub proof fn lemma_parsed_round_trip(line: Seq<char>)
    requires
        parse_spec(line).is_ok(),
    ensures
        parse_spec(serialize_spec(parse_spec(line)->Ok_0)) == parse_spec(line)
            <==> is_unterminated(strip_line_ending(line)),
{
    let c = parse_spec(line)->Ok_0;
    lemma_parse_then_serialize(line);
    lemma_serialize_then_parse(c);
    lemma_serialized_ending(c);
}

/// A line that is no command. It carries the rejected text, without its
/// line terminator.
#[derive(Debug, Clone, PartialEq, Eq)]
pub struct ParseError {
    input: String,
}

impl View for ParseError {
    type V = Seq<char>;

    closed spec fn view(&self) -> Seq<char> {
        self.input@
    }
}

impl ParseError {
    pub fn new(input: String) -> (e: ParseError)
        ensures
            e@ == input@,
    {
        ParseError { input }
    }

    /// The rejected text.
    pub fn description(&self) -> (text: &str)
        ensures
            text@ == self@,
    {
        self.input.as_str()
    }

    /// The error as a message for a log: `ParseError: - ` and the text.
    pub fn to_string(&self) -> (message: String)
        ensures
            message@ == "ParseError: - "@ + self@,
    {
        let mut message = "ParseError: - ".to_owned();
        message.append(self.input.as_str());
        message
    }
}

/// A command of the protocol.
#[derive(Debug, Clone, PartialEq, Eq)]
pub enum Command {
    Identity(String),
    Subscribe(String),
    Unsubscribe(String),
    Publish(String, String),
    Message(String, String, String),
}

impl View for Command {
    type V = CommandView;

    open spec fn view(&self) -> CommandView {
        match self {
            Command::Identity(user) => CommandView::Identity(user@),
            Command::Subscribe(topic) => CommandView::Subscribe(topic@),
            Command::Unsubscribe(topic) => CommandView::Unsubscribe(topic@),
            Command::Publish(topic, message) => CommandView::Publish(topic@, message@),
            Command::Message(topic, user, message) => CommandView::Message(
                topic@,
                user@,
                message@,
            ),
        }
    }
}

/// The position of the first separator in `s`, counted in characters.
fn find_separator(s: &str) -> (found: Option<usize>)
    ensures
        match found {
            Some(i) => is_first_separator(s@, i as int),
            None => !has_separator(s@),
        },
{
    let len = s.unicode_len();
    let mut chars = s.chars();
    let mut i: usize = 0;
    loop
        invariant
            len == s@.len(),
            i <= len,
            chars.remaining() == s@.skip(i as int),
            forall|j: int| 0 <= j < i ==> !is_separator(#[trigger] s@[j]),
        decreases len - i,
    {
        match chars.next() {
            Some(c) => {
                if c == ':' {
                    return Some(i);
                }
                i += 1;
            },
            None => {
                assert forall|k: int| !is_first_separator(s@, k) by {
                    if 0 <= k < s@.len() {
                        assert(!is_separator(s@[k]));
                    }
                }
                return None;
            },
        }
    }
}

/// One splitting step on a string slice.
fn split_field<'a>(s: &'a str) -> (parts: Option<(&'a str, &'a str)>)
    ensures
        match parts {
            Some((head, tail)) => split_once(s@) == Some((head@, tail@)),
            None => split_once(s@).is_none(),
        },
{
    match find_separator(s) {
        Some(i) => {
            proof {
                lemma_first_separator_unique(s@, i as int, first_separator(s@));
            }
            let len = s.unicode_len();
            Some((s.substring_char(0, i), s.substring_char(i + 1, len)))
        },
        None => None,
    }
}

/// Takes one line terminator off the end of `line`.
fn trim_line_ending<'a>(line: &'a str) -> (text: &'a str)
    ensures
        text@ == strip_line_ending(line@),
{
    let mut end = line.unicode_len();
    if end > 0 && line.get_char(end - 1) == '\n' {
        end -= 1;
    }
    if end > 0 && line.get_char(end - 1) == '\r' {
        end -= 1;
    }
    line.substring_char(0, end)
}

impl Command {
    /// Serializes this command to a string.
    pub fn serialize(&self) -> (text: String)
        ensures
            text@ == serialize_spec(self@),
    {
        proof {
            reveal_strlit("i:");
            reveal_strlit("s:");
            reveal_strlit("u:");
            reveal_strlit("p:");
            reveal_strlit("m:");
            reveal_strlit(":");
        }
        match self {
            Command::Identity(user) => {
                let mut text = "i:".to_owned();
                text.append(user.as_str());
                text
            },
            Command::Subscribe(topic) => {
                let mut text = "s:".to_owned();
                text.append(topic.as_str());
                text
            },
            Command::Unsubscribe(topic) => {
                let mut text = "u:".to_owned();
                text.append(topic.as_str());
                text
            },
            Command::Publish(topic, message) => {
                let mut text = "p:".to_owned();
                text.append(topic.as_str());
                text.append(":");
                text.append(message.as_str());
                text
            },
            Command::Message(topic, user, message) => {
                let mut text = "m:".to_owned();
                text.append(topic.as_str());
                text.append(":");
                text.append(user.as_str());
                text.append(":");
                text.append(message.as_str());
                text
            },
        }
    }

    /// Parses a line into a protocol command.
    ///
    /// One trailing line terminator is ignored. The error holds the line
    /// without it.
    pub fn parse(command: &str) -> (r: Result<Command, ParseError>)
        ensures
            match r {
                Ok(c) => parse_spec(command@) == Ok::<CommandView, Seq<char>>(c@),
                Err(e) => parse_spec(command@) == Err::<CommandView, Seq<char>>(e@),
            },
    {
        let text = trim_line_ending(command);
        if let Some((opcode, rest)) = split_field(text) {
            if opcode.unicode_len() == 1 {
                let code = opcode.get_char(0);
                if code == 'i' {
                    return Ok(Command::Identity(rest.to_owned()));
                } else if code == 's' {
                    return Ok(Command::Subscribe(rest.to_owned()));
                } else if code == 'u' {
                    return Ok(Command::Unsubscribe(rest.to_owned()));
                } else if code == 'p' {
                    if let Some((topic, message)) = split_field(rest) {
                        return Ok(Command::Publish(topic.to_owned(), message.to_owned()));
                    }
                } else if code == 'm' {
                    if let Some((topic, rest)) = split_field(rest) {
                        if let Some((user, message)) = split_field(rest) {
                            return Ok(
                                Command::Message(
                                    topic.to_owned(),
                                    user.to_owned(),
                                    message.to_owned(),
                                ),
                            );
                        }
                    }
                }
            }
        }
        Err(ParseError::new(text.to_owned()))
    }
}

} // verus!
