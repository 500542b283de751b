//! The wire format: one IRC message per line.
//!
//! Incoming lines are tokenised by the `irc_rust` crate; outgoing lines are
//! assembled by its message builder. Both calls are trusted: their contracts
//! are stated here and are not proved.

use vstd::prelude::*;
use vstd::string::*;

verus! {

/// The parts of an incoming message that the server looks at.
#[derive(Debug, Clone, PartialEq, Eq)]
pub struct ParsedMessage {
    pub command: String,
    pub params: Vec<String>,
    pub trailing: Option<String>,
}

pub struct ParsedMessageView {
    pub command: Seq<char>,
    pub params: Seq<Seq<char>>,
    pub trailing: Option<Seq<char>>,
}

impl View for ParsedMessage {
    type V = ParsedMessageView;

    open spec fn view(&self) -> ParsedMessageView {
        ParsedMessageView {
            command: self.command@,
            params: self.params.deep_view(),
            trailing: self.trailing.deep_view(),
        }
    }
}

/// The command that `irc_rust` finds in a line, if it finds one.
pub uninterp spec fn command_of(line: Seq<char>) -> Option<Seq<char>>;

/// The middle parameters that `irc_rust` finds in a line, unless it rejects
/// the line.
pub uninterp spec fn params_of(line: Seq<char>) -> Option<Seq<Seq<char>>>;

/// The trailing parameter that `irc_rust` finds in a line (the inner option),
/// unless it rejects the line.
pub uninterp spec fn trailing_of(line: Seq<char>) -> Option<Option<Seq<char>>>;

/// Calls `irc_rust::Message::command` on the line. The crate's tokenizer
/// decides what the command is; the contract only gives that result its name,
/// with `None` where the crate reports an error.
#[verifier::external_body]
fn line_command(line: &str) -> (r: Option<String>)
    ensures
        r.deep_view() == command_of(line@),
{
    irc_rust::Message::from(line).command().ok().map(|command| command.to_string())
}

/// Calls `irc_rust::Message::params` on the line and collects what its
/// iterator yields. The contract only gives that list its name, with `None`
/// where the crate reports an error.
#[verifier::external_body]
fn line_params(line: &str) -> (r: Option<Vec<String>>)
    ensures
        r.deep_view() == params_of(line@),
{
    irc_rust::Message::from(line).params().ok().map(
        |params| params.map(|param| param.to_string()).collect(),
    )
}

/// Calls `irc_rust::Message::trailing` on the line. The contract only gives
/// the result its name, with `None` where the crate reports an error.
#[verifier::external_body]
fn line_trailing(line: &str) -> (r: Option<Option<String>>)
    ensures
        r.deep_view() == trailing_of(line@),
{
    irc_rust::Message::from(line).trailing().ok().map(
        |trailing| trailing.map(|text| text.to_string()),
    )
}

/// What a line tokenises to: the three parts where the tokenizer accepts the
/// line for each of them, nothing otherwise.
pub open spec fn tokenize_spec(line: Seq<char>) -> Option<ParsedMessageView> {
    match (command_of(line), params_of(line), trailing_of(line)) {
        (Some(command), Some(params), Some(trailing)) => Some(
            ParsedMessageView { command, params, trailing },
        ),
        _ => None,
    }
}

impl ParsedMessage {
    /// Tokenises one line (without its terminator).
    pub fn from_line(line: &str) -> (r: Option<ParsedMessage>)
        ensures
            r.is_some() == tokenize_spec(line@).is_some(),
            r matches Some(message) ==> tokenize_spec(line@) == Some(message@),
    {
        let command = match line_command(line) {
            Some(command) => command,
            None => {
                return None;
            },
        };
        let params = match line_params(line) {
            Some(params) => params,
            None => {
                return None;
            },
        };
        let trailing = match line_trailing(line) {
            Some(trailing) => trailing,
            None => {
                return None;
            },
        };
        Some(ParsedMessage { command, params, trailing })
    }
}

/// The parameters as they stand in a line: each one after a single space.
pub open spec fn params_text(params: Seq<Seq<char>>) -> Seq<char>
    decreases params.len(),
{
    if params.len() == 0 {
        Seq::<char>::empty()
    } else {
        params_text(params.drop_last()) + seq![' '] + params.last()
    }
}

/// The text of a message: `[:prefix ]command[ param]*[ :trailing]`.
pub open spec fn line_spec(
    prefix: Option<Seq<char>>,
    command: Seq<char>,
    params: Seq<Seq<char>>,
    trailing: Option<Seq<char>>,
) -> Seq<char> {
    let head = match prefix {
        Some(name) => seq![':'] + name + seq![' '],
        None => Seq::<char>::empty(),
    };
    let tail = match trailing {
        Some(text) => seq![' ', ':'] + text,
        None => Seq::<char>::empty(),
    };
    head + command + params_text(params) + tail
}

/// What the builder accepts without panicking: a command, a prefix name and
/// parameters that are not empty.
pub open spec fn renderable(
    prefix: Option<Seq<char>>,
    command: Seq<char>,
    params: Seq<Seq<char>>,
) -> bool {
    &&& command.len() > 0
    &&& prefix matches Some(name) ==> name.len() > 0
    &&& forall|i: int| 0 <= i < params.len() ==> (#[trigger] params[i]).len() > 0
}

/// Builds a message with `irc_rust::builder::Builder` (`new`, `prefix` with a
/// name only, `param`, `trailing`, `build`) and returns its text. The contract
/// restates what `build` writes for a builder without tags: the prefix behind
/// a colon, the command, the parameters each behind a space, the trailing
/// parameter behind a space and a colon. The builder panics on an empty
/// command, prefix name or parameter, which `requires` leaves out.
#[verifier::external_body]
pub(crate) fn render(
    prefix: Option<&str>,
    command: &str,
    params: &Vec<String>,
    trailing: Option<&str>,
) -> (line: String)
    requires
        renderable(prefix.deep_view(), command@, params.deep_view()),
    ensures
        line@ == line_spec(prefix.deep_view(), command@, params.deep_view(), trailing.deep_view()),
{
    let mut builder = irc_rust::builder::Builder::new(command);
    if let Some(name) = prefix {
        builder = builder.prefix(name, None::<&str>, None::<&str>);
    }
    for param in params {
        builder = builder.param(param);
    }
    if let Some(text) = trailing {
        builder = builder.trailing(text);
    }
    builder.build().to_string()
}

/// A line as it goes out: the text and the terminator CR LF.
pub open spec fn framed(text: Seq<char>) -> Seq<char> {
    text + seq!['\r', '\n']
}

/// Appends CR LF.
pub fn frame(text: String) -> (line: String)
    ensures
        line@ == framed(text@),
{
    proof {
        reveal_strlit("\r\n");
    }
    let line = text.concat("\r\n");
    assert(line@ =~= framed(text@));
    line
}

} // verus!
