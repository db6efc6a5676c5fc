//! One command to the daemon and its reply: what to do after each thing that
//! happens on the connection.

use crate::ctl::terminated;
use crate::policy::built;
use crate::text::{cat, cat3, ends, ends_with, own};
use vstd::prelude::*;
use vstd::string::*;
use vstd::utf8::{
    decode_utf8, encode_utf8, encode_utf8_decode_utf8, encode_utf8_valid_utf8, valid_utf8,
};

verus! {

/// Where sending a command can fail.
#[derive(Clone, Copy, Debug, PartialEq, Eq, Structural)]
pub enum SendStage {
    Write,
    Newline,
    Flush,
    Nonblocking,
}

/// What happened on the connection.
pub enum TripEvent {
    /// There are no Unix domain sockets here.
    NoSockets,
    Connected,
    ConnectFailed(String),
    /// The command was written.
    Written,
    /// The command went out as a line, and reading no longer blocks.
    Sent,
    SendFailed { stage: SendStage, error: String },
    /// Bytes of the reply.
    Bytes(Vec<u8>),
    /// Nothing to read now; `late` once the time for the reply is up.
    Quiet { late: bool },
    /// The daemon closed the connection.
    Closed,
    ReadFailed(String),
}

/// The same over text.
pub enum TripEventModel {
    NoSockets,
    Connected,
    ConnectFailed(Seq<char>),
    Written,
    Sent,
    SendFailed { stage: SendStage, error: Seq<char> },
    Bytes(Seq<u8>),
    Quiet { late: bool },
    Closed,
    ReadFailed(Seq<char>),
}

impl View for TripEvent {
    type V = TripEventModel;

    open spec fn view(&self) -> TripEventModel {
        match self {
            TripEvent::NoSockets => TripEventModel::NoSockets,
            TripEvent::Connected => TripEventModel::Connected,
            TripEvent::ConnectFailed(e) => TripEventModel::ConnectFailed(e@),
            TripEvent::Written => TripEventModel::Written,
            TripEvent::Sent => TripEventModel::Sent,
            TripEvent::SendFailed { stage, error } => TripEventModel::SendFailed {
                stage: *stage,
                error: error@,
            },
            TripEvent::Bytes(b) => TripEventModel::Bytes(b@),
            TripEvent::Quiet { late } => TripEventModel::Quiet { late: *late },
            TripEvent::Closed => TripEventModel::Closed,
            TripEvent::ReadFailed(e) => TripEventModel::ReadFailed(e@),
        }
    }
}

/// What to do next.
pub enum TripAction {
    /// Write this text.
    Write(String),
    /// Write a line feed first if asked to, then send what was written and
    /// read without blocking from now on.
    Send { newline: bool },
    Read,
    /// Wait a moment, then read.
    Wait,
    /// The reply is complete.
    Done,
    Fail(String),
}

/// The same over text.
pub enum TripActionModel {
    Write(Seq<char>),
    Send { newline: bool },
    Read,
    Wait,
    Done,
    Fail(Seq<char>),
}

impl View for TripAction {
    type V = TripActionModel;

    open spec fn view(&self) -> TripActionModel {
        match self {
            TripAction::Write(t) => TripActionModel::Write(t@),
            TripAction::Send { newline } => TripActionModel::Send { newline: *newline },
            TripAction::Read => TripActionModel::Read,
            TripAction::Wait => TripActionModel::Wait,
            TripAction::Done => TripActionModel::Done,
            TripAction::Fail(e) => TripActionModel::Fail(e@),
        }
    }
}

/// What messages call a stage.
pub open spec fn stage_name(s: SendStage) -> Seq<char> {
    match s {
        SendStage::Write => "write: "@,
        SendStage::Newline => "write nl: "@,
        SendStage::Flush => "flush: "@,
        SendStage::Nonblocking => "nonblocking: "@,
    }
}

/// The reply after an event.
pub open spec fn reply_after(reply: Seq<u8>, e: TripEventModel) -> Seq<u8> {
    match e {
        TripEventModel::Bytes(b) => reply + b,
        _ => reply,
    }
}

/// What an event asks for. The command goes out as one line: the line feed is
/// written by itself where the command has none. The reply is
/// complete when the daemon closes the connection, when it falls silent after
/// some bytes, or when time is up.
pub open spec fn action_after(
    socket: Seq<char>,
    cmd: Seq<char>,
    reply: Seq<u8>,
    e: TripEventModel,
) -> TripActionModel {
    match e {
        TripEventModel::NoSockets => TripActionModel::Fail(
            "runtime API requires Unix domain sockets (not supported here)"@,
        ),
        TripEventModel::Connected => TripActionModel::Write(cmd),
        TripEventModel::ConnectFailed(m) => TripActionModel::Fail(
            "connect "@ + socket + ": "@ + m,
        ),
        TripEventModel::Written => TripActionModel::Send { newline: !ends(cmd, "\n"@) },
        TripEventModel::Sent => TripActionModel::Read,
        TripEventModel::SendFailed { stage, error } => TripActionModel::Fail(
            stage_name(stage) + error,
        ),
        TripEventModel::Bytes(_) => TripActionModel::Read,
        TripEventModel::Quiet { late } => if reply.len() > 0 || late {
            TripActionModel::Done
        } else {
            TripActionModel::Wait
        },
        TripEventModel::Closed => TripActionModel::Done,
        TripEventModel::ReadFailed(m) => TripActionModel::Fail("read: "@ + m),
    }
}

/// Takes an event of the exchange of `cmd` over `socket`. `reply` holds what
/// came so far.
pub fn round_trip(socket: &str, cmd: &str, reply: &mut Vec<u8>, e: TripEvent) -> (a: TripAction)
    ensures
        final(reply)@ == reply_after(old(reply)@, e@),
        a@ == action_after(socket@, cmd@, old(reply)@, e@),
{
    match e {
        TripEvent::NoSockets => TripAction::Fail(
            own("runtime API requires Unix domain sockets (not supported here)"),
        ),
        TripEvent::Connected => TripAction::Write(own(cmd)),
        TripEvent::ConnectFailed(m) => {
            let mut s = cat3("connect ", socket, ": ");
            s.append(m.as_str());
            TripAction::Fail(s)
        },
        TripEvent::Written => TripAction::Send { newline: !ends_with(cmd, "\n") },
        TripEvent::Sent => TripAction::Read,
        TripEvent::SendFailed { stage, error } => {
            let name = match stage {
                SendStage::Write => "write: ",
                SendStage::Newline => "write nl: ",
                SendStage::Flush => "flush: ",
                SendStage::Nonblocking => "nonblocking: ",
            };
            TripAction::Fail(cat(name, error.as_str()))
        },
        TripEvent::Bytes(b) => {
            let mut b = b;
            reply.append(&mut b);
            TripAction::Read
        },
        TripEvent::Quiet { late } => if reply.len() > 0 || late {
            TripAction::Done
        } else {
            TripAction::Wait
        },
        TripEvent::Closed => TripAction::Done,
        TripEvent::ReadFailed(m) => TripAction::Fail(cat("read: ", m.as_str())),
    }
}

/// What goes out is the command, ended by one line feed.
pub proof fn commands_go_out_as_lines(socket: Seq<char>, cmd: Seq<char>, reply: Seq<u8>)
    ensures
        ({
            let first = action_after(socket, cmd, reply, TripEventModel::Connected);
            let second = action_after(socket, cmd, reply, TripEventModel::Written);
            &&& first is Write
            &&& second is Send
            &&& terminated(cmd) == first->Write_0 + (if second->newline {
                "\n"@
            } else {
                Seq::empty()
            })
        }),
{
    assert(cmd + Seq::<char>::empty() =~= cmd);
}

/// The reply after a list of events.
pub open spec fn reply_of(es: Seq<TripEventModel>) -> Seq<u8>
    decreases es.len(),
{
    if es.len() == 0 {
        Seq::empty()
    } else {
        reply_after(reply_of(es.drop_last()), es.last())
    }
}

/// The bytes that arrived, one after another.
pub open spec fn received(es: Seq<TripEventModel>) -> Seq<u8>
    decreases es.len(),
{
    if es.len() == 0 {
        Seq::empty()
    } else {
        received(es.drop_last()) + (match es.last() {
            TripEventModel::Bytes(b) => b,
            _ => Seq::empty(),
        })
    }
}

/// The reply is what arrived, all of it and in order. Silence alone completes
/// it only once something has arrived or time is up.
pub proof fn replies_are_what_arrived(
    socket: Seq<char>,
    cmd: Seq<char>,
    es: Seq<TripEventModel>,
    e: TripEventModel,
)
    ensures
        reply_of(es) == received(es),
        action_after(socket, cmd, reply_of(es), e) is Done <==> (e is Closed || (e is Quiet && (
        received(es).len() > 0 || e->late))),
    decreases es.len(),
{
    if es.len() > 0 {
        replies_are_what_arrived(socket, cmd, es.drop_last(), e);
        assert(received(es.drop_last()) + Seq::<u8>::empty() =~= received(es.drop_last()));
    }
}

/// What std has against bytes that are no UTF-8: the text of
/// `std::string::FromUtf8Error`.
pub uninterp spec fn utf8_fault(bytes: Seq<u8>) -> Seq<char>;

/// Reads bytes as UTF-8 by `String::from_utf8`: the characters they encode, or,
/// exactly where they encode none, the text of the error. That text is named,
/// not described.
#[verifier::external_body]
fn read_utf8(bytes: Vec<u8>) -> (r: Result<String, String>)
    ensures
        match r {
            Ok(s) => valid_utf8(bytes@) && s@ == decode_utf8(bytes@),
            Err(e) => !valid_utf8(bytes@) && e@ == utf8_fault(bytes@),
        },
{
    match String::from_utf8(bytes) {
        Ok(s) => Ok(s),
        Err(e) => Err(format!("{e}")),
    }
}

/// What a reply comes to, by what reading its bytes came to.
pub open spec fn reply_verdict(read: Result<Seq<char>, Seq<char>>) -> Result<Seq<char>, Seq<char>> {
    match read {
        Ok(t) => Ok(t),
        Err(e) => Err("non-utf8 reply: "@ + e),
    }
}

/// Judges what reading the bytes of a reply came to.
pub fn judge_reply(read: Result<String, String>) -> (r: Result<String, String>)
    ensures
        built(r) == reply_verdict(built(read)),
{
    match read {
        Ok(t) => Ok(t),
        Err(e) => Err(cat("non-utf8 reply: ", e.as_str())),
    }
}

/// The text of a finished reply: its bytes read as UTF-8, or an error.
pub fn reply_text(bytes: Vec<u8>) -> (r: Result<String, String>)
    ensures
        built(r) == reply_verdict(
            if valid_utf8(bytes@) {
                Ok(decode_utf8(bytes@))
            } else {
                Err(utf8_fault(bytes@))
            },
        ),
{
    judge_reply(read_utf8(bytes))
}

/// A daemon that writes text is read as it wrote.
pub proof fn written_text_is_read(t: Seq<char>)
    ensures
        valid_utf8(encode_utf8(t)),
        decode_utf8(encode_utf8(t)) == t,
{
    encode_utf8_valid_utf8(t);
    encode_utf8_decode_utf8(t);
}

} // verus!
