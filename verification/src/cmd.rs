//! The command layer: from a request message to a command, and from a command to its response.

use vstd::prelude::*;
use vstd::slice::slice_subrange;
use crate::resp::{mismatch, views, Kind, Msg, MsgView, TypeMismatch};
use crate::text::same_text;

verus! {

/// The commands that the server knows.
#[derive(Debug, Clone, Copy, PartialEq, Eq, Structural)]
pub enum CmdName {
    Ping,
    Echo,
}

/// A request, decoded and validated. It borrows its texts from the request message.
#[derive(Debug, PartialEq, Eq)]
pub enum Cmd<'a> {
    /// `PING`, with the text to send back, if one was given.
    Ping(Option<&'a str>),
    /// `ECHO`, with the text to send back.
    Echo(&'a str),
}

/// The mathematical value of a command.
pub enum CmdView {
    Ping(Option<Seq<char>>),
    Echo(Seq<char>),
}

impl<'a> View for Cmd<'a> {
    type V = CmdView;

    open spec fn view(&self) -> CmdView {
        match self {
            Cmd::Ping(None) => CmdView::Ping(None),
            Cmd::Ping(Some(text)) => CmdView::Ping(Some(text@)),
            Cmd::Echo(text) => CmdView::Echo(text@),
        }
    }
}

/// Why a request message is no command.
#[derive(Debug, PartialEq, Eq)]
pub enum CmdError {
    /// The request is no array, or its first element is no bulk string.
    TypeMismatch(TypeMismatch),
    /// The request is an array without elements.
    EmptyCommand,
    /// The command does not take `got` arguments.
    ArgumentCount { command: CmdName, got: usize },
    /// The argument at `index` is of the wrong kind.
    ArgumentType { command: CmdName, index: usize, mismatch: TypeMismatch },
    /// No command has this name; the name is given as it was received.
    UnknownCommand(String),
}

/// The mathematical value of a command error.
pub enum CmdErrorView {
    TypeMismatch(TypeMismatch),
    EmptyCommand,
    ArgumentCount { command: CmdName, got: nat },
    ArgumentType { command: CmdName, index: nat, mismatch: TypeMismatch },
    UnknownCommand(Seq<char>),
}

impl View for CmdError {
    type V = CmdErrorView;

    open spec fn view(&self) -> CmdErrorView {
        match self {
            CmdError::TypeMismatch(m) => CmdErrorView::TypeMismatch(*m),
            CmdError::EmptyCommand => CmdErrorView::EmptyCommand,
            CmdError::ArgumentCount { command, got } => CmdErrorView::ArgumentCount {
                command: *command,
                got: *got as nat,
            },
            CmdError::ArgumentType { command, index, mismatch } => CmdErrorView::ArgumentType {
                command: *command,
                index: *index as nat,
                mismatch: *mismatch,
            },
            CmdError::UnknownCommand(name) => CmdErrorView::UnknownCommand(name@),
        }
    }
}

/// The view of a decoded request.
pub open spec fn decoded_view(r: Result<Cmd<'_>, CmdError>) -> Result<CmdView, CmdErrorView> {
    match r {
        Ok(cmd) => Ok(cmd@),
        Err(e) => Err(e@),
    }
}

/// The uppercase form of a text, as `str::to_uppercase` gives it.
pub uninterp spec fn uppercase(text: Seq<char>) -> Seq<char>;

/// The uppercase form of `text`. Wraps `str::to_uppercase`, which maps each character by the
/// Unicode uppercase mapping; the result is named `uppercase` and nothing more is claimed of it.
#[verifier::external_body]
fn to_uppercase(text: &str) -> (upper: String)
    ensures
        upper@ == uppercase(text@),
{
    text.to_uppercase()
}

/// The one argument that a command takes, which has to be a bulk string.
pub open spec fn text_argument_of(command: CmdName, arg: MsgView) -> Result<
    Seq<char>,
    CmdErrorView,
> {
    match arg {
        MsgView::BulkString(text) => Ok(text),
        other => Err(
            CmdErrorView::ArgumentType {
                command,
                index: 0,
                mismatch: mismatch(Kind::BulkString, other.kind()),
            },
        ),
    }
}

/// The command that a request stands for, given its name as received, the name in uppercase
/// and the arguments that follow the name.
///
/// `PING` takes no argument or one, `ECHO` exactly one; each argument has to be a bulk string.
/// The number of arguments is looked at before their kinds. Any other name is unknown.
pub open spec fn command_named(upper: Seq<char>, name: Seq<char>, args: Seq<MsgView>) -> Result<
    CmdView,
    CmdErrorView,
> {
    if upper == "PING"@ {
        if args.len() > 1 {
            Err(CmdErrorView::ArgumentCount { command: CmdName::Ping, got: args.len() })
        } else if args.len() == 0 {
            Ok(CmdView::Ping(None))
        } else {
            match text_argument_of(CmdName::Ping, args[0]) {
                Ok(text) => Ok(CmdView::Ping(Some(text))),
                Err(e) => Err(e),
            }
        }
    } else if upper == "ECHO"@ {
        if args.len() != 1 {
            Err(CmdErrorView::ArgumentCount { command: CmdName::Echo, got: args.len() })
        } else {
            match text_argument_of(CmdName::Echo, args[0]) {
                Ok(text) => Ok(CmdView::Echo(text)),
                Err(e) => Err(e),
            }
        }
    } else {
        Err(CmdErrorView::UnknownCommand(name))
    }
}

/// The command that a request message stands for.
///
/// The request has to be an array that is not empty and starts with a bulk string, the name of
/// the command. The name is matched in its uppercase form.
pub open spec fn command_of(msg: MsgView) -> Result<CmdView, CmdErrorView> {
    match msg {
        MsgView::Array(items) => if items.len() == 0 {
            Err(CmdErrorView::EmptyCommand)
        } else {
            match items[0] {
                MsgView::BulkString(name) => command_named(
                    uppercase(name),
                    name,
                    items.drop_first(),
                ),
                other => Err(
                    CmdErrorView::TypeMismatch(mismatch(Kind::BulkString, other.kind())),
                ),
            }
        },
        other => Err(CmdErrorView::TypeMismatch(mismatch(Kind::Array, other.kind()))),
    }
}

/// The response to a command.
pub open spec fn response_to(cmd: CmdView) -> MsgView {
    match cmd {
        CmdView::Ping(None) => MsgView::SimpleString("PONG"@),
        CmdView::Ping(Some(text)) => MsgView::BulkString(text),
        CmdView::Echo(text) => MsgView::BulkString(text),
    }
}

/// The one argument of `command`, as text.
fn text_argument<'a>(command: CmdName, arg: &'a Msg) -> (r: Result<&'a str, CmdError>)
    ensures
        match r {
            Ok(text) => text_argument_of(command, arg@) == Ok::<Seq<char>, CmdErrorView>(text@),
            Err(e) => text_argument_of(command, arg@) == Err::<Seq<char>, CmdErrorView>(e@),
        },
{
    match arg.as_bulk_string() {
        Ok(text) => Ok(text),
        Err(e) => Err(CmdError::ArgumentType { command, index: 0, mismatch: e }),
    }
}

impl<'a> Cmd<'a> {
    /// Decodes and validates a request message.
    pub fn decode(msg: &'a Msg) -> (r: Result<Cmd<'a>, CmdError>)
        ensures
            decoded_view(r) == command_of(msg@),
    {
        let items: &[Msg] = match msg.as_array() {
            Ok(items) => items,
            Err(e) => {
                return Err(CmdError::TypeMismatch(e));
            },
        };
        if items.len() == 0 {
            return Err(CmdError::EmptyCommand);
        }
        let name: &str = match items[0].as_bulk_string() {
            Ok(name) => name,
            Err(e) => {
                return Err(CmdError::TypeMismatch(e));
            },
        };
        let upper: String = to_uppercase(name);
        let args: &[Msg] = slice_subrange(items, 1, items.len());
        assert(views(args@) =~= views(items@).drop_first());
        Self::dispatch(upper.as_str(), name, args)
    }

    /// Picks and validates the command, given the name in uppercase, the name as received and
    /// the arguments.
    pub fn dispatch(upper: &str, name: &'a str, args: &'a [Msg]) -> (r: Result<
        Cmd<'a>,
        CmdError,
    >)
        ensures
            decoded_view(r) == command_named(upper@, name@, views(args@)),
    {
        if same_text(upper, "PING") {
            if args.len() > 1 {
                Err(CmdError::ArgumentCount { command: CmdName::Ping, got: args.len() })
            } else if args.len() == 0 {
                Ok(Cmd::Ping(None))
            } else {
                match text_argument(CmdName::Ping, &args[0]) {
                    Ok(text) => Ok(Cmd::Ping(Some(text))),
                    Err(e) => Err(e),
                }
            }
        } else if same_text(upper, "ECHO") {
            if args.len() != 1 {
                Err(CmdError::ArgumentCount { command: CmdName::Echo, got: args.len() })
            } else {
                match text_argument(CmdName::Echo, &args[0]) {
                    Ok(text) => Ok(Cmd::Echo(text)),
                    Err(e) => Err(e),
                }
            }
        } else {
            Err(CmdError::UnknownCommand(name.to_owned()))
        }
    }

    /// The response to the command.
    pub fn respond(&self) -> (response: Msg)
        ensures
            response@ == response_to(self@),
    {
        match self {
            Cmd::Ping(None) => Msg::SimpleString("PONG".to_owned()),
            Cmd::Ping(Some(text)) => Msg::BulkString((*text).to_owned()),
            Cmd::Echo(text) => Msg::BulkString((*text).to_owned()),
        }
    }
}

} // verus!
