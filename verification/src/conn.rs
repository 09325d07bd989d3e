//! The decisions of one connection.
//!
//! A connection alternates between reading a frame and writing a response. Reading and writing
//! are the caller's work; what to do after each of them is decided here, by `step`.

use vstd::prelude::*;
use crate::cmd::{command_of, response_to, Cmd, CmdError, CmdErrorView};
use crate::decode::{decode_msg, DecodeError};
use crate::resp::{Msg, MsgView};
use crate::roundtrip::lemma_decode_encode;

verus! {

/// The response that a request message gets, or why the request is no command.
pub open spec fn reply_to(msg: MsgView) -> Result<MsgView, CmdErrorView> {
    match command_of(msg) {
        Ok(cmd) => Ok(response_to(cmd)),
        Err(e) => Err(e),
    }
}

/// The view of a handled request.
pub open spec fn handled_view(r: Result<Msg, CmdError>) -> Result<MsgView, CmdErrorView> {
    match r {
        Ok(msg) => Ok(msg@),
        Err(e) => Err(e@),
    }
}

/// Decodes a request message as a command and gives the command's response.
pub fn handle_msg(msg: &Msg) -> (r: Result<Msg, CmdError>)
    ensures
        handled_view(r) == reply_to(msg@),
{
    match Cmd::decode(msg) {
        Ok(cmd) => Ok(cmd.respond()),
        Err(e) => Err(e),
    }
}

/// Where a connection stands.
#[derive(Debug, Clone, Copy, PartialEq, Eq, Structural)]
pub enum ConnState {
    /// The next frame is being read.
    Reading,
    /// A response is being written.
    Writing,
    /// The connection is over.
    Terminated,
}

/// What happened on the connection.
#[derive(Debug, PartialEq, Eq)]
pub enum ConnEvent {
    /// The decoder was asked for the next frame and returned this.
    Frame(Option<Result<Msg, DecodeError>>),
    /// The response was handed to the output; `true` where all of it was written.
    Written(bool),
}

/// What the connection does next.
#[derive(Debug, PartialEq, Eq)]
pub enum ConnAction {
    /// Ask the decoder for the next frame.
    Read,
    /// Report the malformed frame, write nothing, and ask the decoder for the next frame.
    Report(DecodeError),
    /// Write `bytes`, the encoding of `response`, in full. Where the request was no command,
    /// `rejected` says why, and the response is the absent value.
    Write { response: Msg, bytes: Vec<u8>, rejected: Option<CmdError> },
    /// Close the connection.
    Close,
}

/// The mathematical value of an event.
pub enum ConnEventView {
    Frame(Option<Result<MsgView, DecodeError>>),
    Written(bool),
}

/// The mathematical value of an action.
pub enum ConnActionView {
    Read,
    Report(DecodeError),
    Write { response: MsgView, bytes: Seq<u8>, rejected: Option<CmdErrorView> },
    Close,
}

impl View for ConnEvent {
    type V = ConnEventView;

    open spec fn view(&self) -> ConnEventView {
        match self {
            ConnEvent::Frame(None) => ConnEventView::Frame(None),
            ConnEvent::Frame(Some(Ok(msg))) => ConnEventView::Frame(Some(Ok(msg@))),
            ConnEvent::Frame(Some(Err(e))) => ConnEventView::Frame(Some(Err(*e))),
            ConnEvent::Written(ok) => ConnEventView::Written(*ok),
        }
    }
}

impl View for ConnAction {
    type V = ConnActionView;

    open spec fn view(&self) -> ConnActionView {
        match self {
            ConnAction::Read => ConnActionView::Read,
            ConnAction::Report(e) => ConnActionView::Report(*e),
            ConnAction::Write { response, bytes, rejected } => ConnActionView::Write {
                response: response@,
                bytes: bytes@,
                rejected: match rejected {
                    Some(e) => Some(e@),
                    None => None,
                },
            },
            ConnAction::Close => ConnActionView::Close,
        }
    }
}

/// The write that answers a request message: the command's response, or the absent value
/// where the request is no command, together with its bytes.
pub open spec fn answer_to(msg: MsgView) -> ConnActionView {
    match reply_to(msg) {
        Ok(response) => ConnActionView::Write {
            response,
            bytes: response.encode(),
            rejected: None,
        },
        Err(e) => ConnActionView::Write {
            response: MsgView::Null,
            bytes: MsgView::Null.encode(),
            rejected: Some(e),
        },
    }
}

/// The next state of a connection and what it does next, after `event` happened in `state`.
///
/// While reading: the end of the stream closes the connection; a malformed frame is reported
/// and reading goes on; a well-formed frame is answered. While writing: after a full write
/// reading goes on; a failed write closes the connection. An event that does not belong to the
/// state closes the connection, and a terminated connection stays terminated.
pub open spec fn next_step(state: ConnState, event: ConnEventView) -> (ConnState, ConnActionView) {
    match (state, event) {
        (ConnState::Reading, ConnEventView::Frame(None)) => (
            ConnState::Terminated,
            ConnActionView::Close,
        ),
        (ConnState::Reading, ConnEventView::Frame(Some(Err(e)))) => (
            ConnState::Reading,
            ConnActionView::Report(e),
        ),
        (ConnState::Reading, ConnEventView::Frame(Some(Ok(msg)))) => (
            ConnState::Writing,
            answer_to(msg),
        ),
        (ConnState::Writing, ConnEventView::Written(true)) => (
            ConnState::Reading,
            ConnActionView::Read,
        ),
        _ => (ConnState::Terminated, ConnActionView::Close),
    }
}

/// The write that answers a request message.
pub fn answer(msg: &Msg) -> (action: ConnAction)
    ensures
        action@ == answer_to(msg@),
{
    match handle_msg(msg) {
        Ok(response) => {
            let bytes: Vec<u8> = response.encode();
            ConnAction::Write { response, bytes, rejected: None }
        },
        Err(e) => {
            let response: Msg = Msg::Null;
            let bytes: Vec<u8> = response.encode();
            ConnAction::Write { response, bytes, rejected: Some(e) }
        },
    }
}

/// Decides what a connection does after `event` happened in `state`.
pub fn step(state: ConnState, event: ConnEvent) -> (next: (ConnState, ConnAction))
    ensures
        (next.0, next.1@) == next_step(state, event@),
{
    match state {
        ConnState::Reading => match event {
            ConnEvent::Frame(None) => (ConnState::Terminated, ConnAction::Close),
            ConnEvent::Frame(Some(Err(e))) => (ConnState::Reading, ConnAction::Report(e)),
            ConnEvent::Frame(Some(Ok(msg))) => (ConnState::Writing, answer(&msg)),
            ConnEvent::Written(_) => (ConnState::Terminated, ConnAction::Close),
        },
        ConnState::Writing => match event {
            ConnEvent::Written(true) => (ConnState::Reading, ConnAction::Read),
            _ => (ConnState::Terminated, ConnAction::Close),
        },
        ConnState::Terminated => (ConnState::Terminated, ConnAction::Close),
    }
}

/// A failed write ends the connection, whatever state it was in.
pub proof fn lemma_failed_write_terminates(state: ConnState)
    ensures
        next_step(state, ConnEventView::Written(false)) == (
            ConnState::Terminated,
            ConnActionView::Close,
        ),
{
}

/// A malformed frame writes nothing and leaves the connection reading.
pub proof fn lemma_malformed_frame_is_skipped(e: DecodeError)
    ensures
        next_step(ConnState::Reading, ConnEventView::Frame(Some(Err(e)))) == (
            ConnState::Reading,
            ConnActionView::Report(e),
        ),
{
}

/// The response to a command that came in a representable request is representable, and it is
/// no array.
pub proof fn lemma_response_is_representable(msg: MsgView)
    requires
        msg.representable(),
    ensures
        reply_to(msg) matches Ok(response) ==> response.representable() && response.within_depth(
            0,
        ),
{
    reveal_strlit("PONG");
    if let MsgView::Array(items) = msg {
        let args = items.drop_first();
        if items.len() > 1 {
            assert(args[0] == items[1]);
            assert(items[1].representable());
        }
    }
}

/// Whatever the request, the bytes that the connection writes for it are a well-formed frame:
/// a peer that decodes them reads the response, and is left with what follows them.
pub proof fn lemma_answer_reads_back(msg: MsgView, rest: Seq<u8>, depth: nat)
    requires
        msg.representable(),
    ensures
        answer_to(msg) matches ConnActionView::Write { response, bytes, .. } && decode_msg(
            bytes + rest,
            depth,
        ) == (Some(Ok::<MsgView, DecodeError>(response)), rest),
{
    match reply_to(msg) {
        Ok(response) => {
            lemma_response_is_representable(msg);
            lemma_decode_encode(response, rest, depth);
        },
        Err(_) => {
            lemma_decode_encode(MsgView::Null, rest, depth);
        },
    }
}

} // verus!
