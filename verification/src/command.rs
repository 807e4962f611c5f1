//! The command invocation that one request carries, and its parsing from the
//! decoded fields.

use vstd::prelude::*;
use vstd::hash_map::StringHashMap;
use crate::number::{is_decimal, is_decimal_text, parse_int, parse_isize};
use crate::query::{decode, decoded_fields, fields_view};
use crate::text::{
    lemma_split_nonempty, lemma_split_pieces_hold_no_sep, split, split_spaces, strings_view,
};

verus! {

/// A field that every request must carry.
#[derive(Clone, Copy, Debug, PartialEq, Eq, Structural)]
pub enum Field {
    Text,
    ChannelName,
    Timestamp,
    UserName,
}

impl Field {
    /// The name under which the field travels.
    pub open spec fn key(self) -> Seq<char> {
        match self {
            Field::Text => "text"@,
            Field::ChannelName => "channel_name"@,
            Field::Timestamp => "timestamp"@,
            Field::UserName => "user_name"@,
        }
    }

    /// The name under which the field travels.
    pub fn name(self) -> (name: &'static str)
        ensures
            name@ == self.key(),
    {
        match self {
            Field::Text => "text",
            Field::ChannelName => "channel_name",
            Field::Timestamp => "timestamp",
            Field::UserName => "user_name",
        }
    }
}

/// Why a request was given up.
#[derive(Clone, Copy, Debug, PartialEq, Eq, Structural)]
pub enum RequestError {
    /// A required field is absent.
    MissingField(Field),
    /// The timestamp does not write a decimal number.
    InvalidTimestamp,
}

/// One inbound command: who sent it, where, when, and what was typed.
pub struct SlackCommand {
    pub channel_name: String,
    /// The request's time in seconds, as the decimal text that was received.
    pub timestamp: String,
    pub username: String,
    pub text: String,
    /// The tokens of `text` after the command name.
    pub args: Vec<String>,
}

/// The mathematical content of a `SlackCommand`.
#[verifier::ext_equal]
pub ghost struct SlackCommandView {
    pub channel_name: Seq<char>,
    pub timestamp: Seq<char>,
    pub username: Seq<char>,
    pub text: Seq<char>,
    pub args: Seq<Seq<char>>,
}

impl SlackCommandView {
    /// What holds of a command as parsing leaves it: the timestamp writes a
    /// decimal number, and the arguments are the tokens of the text without
    /// the first, which is the command name.
    pub open spec fn wf(self) -> bool {
        &&& is_decimal(self.timestamp)
        &&& self.args == split(self.text, ' ').skip(1)
    }
}

impl View for SlackCommand {
    type V = SlackCommandView;

    open spec fn view(&self) -> SlackCommandView {
        SlackCommandView {
            channel_name: self.channel_name@,
            timestamp: self.timestamp@,
            username: self.username@,
            text: self.text@,
            args: strings_view(self.args@),
        }
    }
}

/// The outcome of parsing: the command name with the command, or the reason
/// why there is none.
pub type Parsed = Result<(Seq<char>, SlackCommandView), RequestError>;

/// The character content of what parsing returned.
pub open spec fn parsed_view(out: Result<(String, SlackCommand), RequestError>) -> Parsed {
    match out {
        Ok((name, cmd)) => Ok((name@, cmd@)),
        Err(e) => Err(e),
    }
}

/// What parsing makes of decoded fields.
///
/// The required fields are looked up in the order text, channel name,
/// timestamp, user name, and the first that is absent is reported. A
/// timestamp that is present and writes no decimal number is reported before
/// an absent user name. The text is split at every space: the first token is
/// the command name, the others are the arguments.
pub open spec fn parse_fields(fields: Map<Seq<char>, Seq<char>>) -> Parsed {
    if !fields.contains_key(Field::Text.key()) {
        Err(RequestError::MissingField(Field::Text))
    } else if !fields.contains_key(Field::ChannelName.key()) {
        Err(RequestError::MissingField(Field::ChannelName))
    } else if !fields.contains_key(Field::Timestamp.key()) {
        Err(RequestError::MissingField(Field::Timestamp))
    } else if !is_decimal(fields[Field::Timestamp.key()]) {
        Err(RequestError::InvalidTimestamp)
    } else if !fields.contains_key(Field::UserName.key()) {
        Err(RequestError::MissingField(Field::UserName))
    } else {
        let tokens = split(fields[Field::Text.key()], ' ');
        Ok(
            (
                tokens[0],
                SlackCommandView {
                    channel_name: fields[Field::ChannelName.key()],
                    timestamp: fields[Field::Timestamp.key()],
                    username: fields[Field::UserName.key()],
                    text: fields[Field::Text.key()],
                    args: tokens.skip(1),
                },
            ),
        )
    }
}

/// What parsing makes of a form-encoded body.
pub open spec fn parse_body(body: Seq<u8>) -> Parsed {
    parse_fields(decoded_fields(body))
}

/// The arguments from position `index` on, run together; nothing where
/// `index` is past the last argument.
pub open spec fn joined_after(args: Seq<Seq<char>>, index: int) -> Seq<char> {
    if 0 <= index < args.len() {
        args.skip(index).flatten()
    } else {
        Seq::empty()
    }
}

/// The value of `field` in `fields`, or the error that reports it missing.
fn required<'a>(fields: &'a StringHashMap<String>, field: Field) -> (out: Result<
    &'a String,
    RequestError,
>)
    ensures
        match out {
            Ok(value) => fields@.contains_key(field.key()) && *value == fields@[field.key()],
            Err(e) => !fields@.contains_key(field.key()) && e == RequestError::MissingField(field),
        },
{
    match fields.get(field.name()) {
        Some(value) => Ok(value),
        None => Err(RequestError::MissingField(field)),
    }
}

impl SlackCommand {
    /// Builds the command that `fields` describe, with its name.
    pub fn parse(fields: &StringHashMap<String>) -> (out: Result<
        (String, SlackCommand),
        RequestError,
    >)
        ensures
            parsed_view(out) == parse_fields(fields_view(fields@)),
            out matches Ok((_, cmd)) ==> cmd@.wf(),
    {
        let text = match required(fields, Field::Text) {
            Ok(value) => value,
            Err(e) => { return Err(e); },
        };
        let channel_name = match required(fields, Field::ChannelName) {
            Ok(value) => value,
            Err(e) => { return Err(e); },
        };
        let timestamp = match required(fields, Field::Timestamp) {
            Ok(value) => value,
            Err(e) => { return Err(e); },
        };
        if !is_decimal_text(timestamp.as_str()) {
            return Err(RequestError::InvalidTimestamp);
        }
        let username = match required(fields, Field::UserName) {
            Ok(value) => value,
            Err(e) => { return Err(e); },
        };
        let mut tokens = split_spaces(text.as_str());
        proof {
            lemma_split_nonempty(text@, ' ');
        }
        let ghost all = tokens@;
        let name = tokens.remove(0);
        let cmd = SlackCommand {
            channel_name: channel_name.clone(),
            timestamp: timestamp.clone(),
            username: username.clone(),
            text: text.clone(),
            args: tokens,
        };
        proof {
            assert(strings_view(all.remove(0)) =~= strings_view(all).skip(1));
            assert(strings_view(all)[0] == name@);
        }
        Ok((name, cmd))
    }

    /// Decodes a form-encoded body and builds the command it describes.
    pub fn from_body(body: &[u8]) -> (out: Result<(String, SlackCommand), RequestError>)
        ensures
            parsed_view(out) == parse_body(body@),
            out matches Ok((_, cmd)) ==> cmd@.wf(),
    {
        let fields = decode(body);
        SlackCommand::parse(&fields)
    }

    /// The arguments from position `index` on, run together with nothing in
    /// between.
    pub fn join_after(&self, index: usize) -> (string: String)
        ensures
            string@ == joined_after(self@.args, index as int),
    {
        let mut string = String::new();
        if index >= self.args.len() {
            return string;
        }
        let ghost args = self@.args;
        let mut i = index;
        proof {
            assert(args.subrange(index as int, i as int) =~= Seq::<Seq<char>>::empty());
        }
        while i < self.args.len()
            invariant
                index <= i <= self.args.len(),
                args == strings_view(self.args@),
                string@ == args.subrange(index as int, i as int).flatten(),
            decreases self.args.len() - i,
        {
            proof {
                let done = args.subrange(index as int, i as int);
                done.lemma_flatten_push(args[i as int]);
                assert(done.push(args[i as int]) =~= args.subrange(index as int, i + 1));
            }
            string.append(self.args[i].as_str());
            i += 1;
        }
        proof {
            assert(args.subrange(index as int, i as int) =~= args.skip(index as int));
        }
        string
    }

    /// The argument at position `index` read as an integer; `None` where
    /// there is no such argument, where it writes no integer, and where the
    /// integer does not fit.
    pub fn int_arg(&self, index: usize) -> (out: Option<isize>)
        ensures
            out == (if index < self@.args.len() {
                match parse_int(self@.args[index as int]) {
                    Some(value) => if isize::MIN <= value <= isize::MAX {
                        Some(value as isize)
                    } else {
                        None
                    },
                    None => None,
                }
            } else {
                None
            }),
    {
        if index >= self.args.len() {
            None
        } else {
            parse_isize(self.args[index].as_str())
        }
    }

    /// A copy of the argument at position `index`, if there is one.
    pub fn safe_arg(&self, index: usize) -> (out: Option<String>)
        ensures
            match out {
                Some(arg) => index < self@.args.len() && arg@ == self@.args[index as int],
                None => index >= self@.args.len(),
            },
    {
        if index >= self.args.len() {
            None
        } else {
            Some(self.args[index].clone())
        }
    }
}

/// Parsing is a function of the body: two runs on the same bytes give the
/// same name and a command that is equal field by field, or the same error.
pub proof fn lemma_parse_is_deterministic(
    body: Seq<u8>,
    first: Result<(String, SlackCommand), RequestError>,
    second: Result<(String, SlackCommand), RequestError>,
)
    requires
        parsed_view(first) == parse_body(body),
        parsed_view(second) == parse_body(body),
    ensures
        parsed_view(first) == parsed_view(second),
        first matches Ok((name1, cmd1)) ==> second matches Ok((name2, cmd2)) && {
            &&& name1@ == name2@
            &&& cmd1@.channel_name == cmd2@.channel_name
            &&& cmd1@.timestamp == cmd2@.timestamp
            &&& cmd1@.username == cmd2@.username
            &&& cmd1@.text == cmd2@.text
            &&& cmd1@.args == cmd2@.args
        },
        first matches Err(e) ==> second == Err::<(String, SlackCommand), RequestError>(e),
{
}

/// Fields without a timestamp do not parse: the request is given up.
pub proof fn lemma_missing_timestamp_fails(fields: Map<Seq<char>, Seq<char>>)
    requires
        !fields.contains_key("timestamp"@),
    ensures
        parse_fields(fields) is Err,
        fields.contains_key("text"@) && fields.contains_key("channel_name"@) ==> parse_fields(
            fields,
        ) == Err::<(Seq<char>, SlackCommandView), RequestError>(
            RequestError::MissingField(Field::Timestamp),
        ),
{
}

/// Fields parse exactly when all four required fields are there and the
/// timestamp writes a decimal number.
pub proof fn lemma_parse_succeeds_iff(fields: Map<Seq<char>, Seq<char>>)
    ensures
        parse_fields(fields) is Ok <==> {
            &&& fields.contains_key("text"@)
            &&& fields.contains_key("channel_name"@)
            &&& fields.contains_key("timestamp"@)
            &&& fields.contains_key("user_name"@)
            &&& is_decimal(fields["timestamp"@])
        },
{
}

/// The command name is a token of its own: it holds no space, and neither
/// does any argument.
pub proof fn lemma_tokens_hold_no_space(fields: Map<Seq<char>, Seq<char>>)
    requires
        parse_fields(fields) is Ok,
    ensures
        ({
            let (name, cmd) = parse_fields(fields)->Ok_0;
            &&& !name.contains(' ')
            &&& forall|i: int| 0 <= i < cmd.args.len() ==> !(#[trigger] cmd.args[i]).contains(' ')
        }),
{
    lemma_split_pieces_hold_no_sep(fields["text"@], ' ');
}

/// Fields whose text is empty parse to the empty command name and to no
/// arguments.
pub proof fn lemma_empty_text_gives_empty_name(fields: Map<Seq<char>, Seq<char>>)
    requires
        parse_fields(fields) is Ok,
        fields["text"@].len() == 0,
    ensures
        ({
            let (name, cmd) = parse_fields(fields)->Ok_0;
            name.len() == 0 && cmd.args.len() == 0
        }),
{
}

/// A command whose text is empty has no arguments.
pub proof fn lemma_empty_text_has_no_args(cmd: SlackCommandView)
    requires
        cmd.wf(),
        cmd.text.len() == 0,
    ensures
        cmd.args.len() == 0,
{
}

} // verus!
