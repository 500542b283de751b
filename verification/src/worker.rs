//! The read side of one connection, as decisions: what a worker emits for
//! what it has read. The reading itself is done by the program around the
//! library.

use crate::server::ServerEvent;
use crate::server::ServerEventView;
use crate::text::chars_of;
use vstd::prelude::*;
use vstd::string::*;
use vstd::utf8::encode_utf8;

verus! {

/// The longest line, in bytes and with its terminator, that a worker
/// hands on.
pub const MAX_LINE_BYTES: usize = 512;

/// Hands out client ids: each one greater than the one before, none
/// twice.
pub struct ClientIds {
    last: u64,
}

impl ClientIds {
    /// The id that was handed out last; zero before the first.
    pub closed spec fn last(&self) -> u64 {
        self.last
    }

    pub fn new() -> (ids: Self)
        ensures
            ids.last() == 0,
    {
        Self { last: 0 }
    }

    /// The next id, one above the last; none once the ids are used up.
    pub fn assign(&mut self) -> (id: Option<u64>)
        ensures
            id.is_some() == (old(self).last() < u64::MAX),
            id matches Some(id) ==> id == old(self).last() + 1 && final(self).last() == id,
            id is None ==> final(self).last() == old(self).last(),
    {
        if self.last == u64::MAX {
            None
        } else {
            self.last = self.last + 1;
            Some(self.last)
        }
    }
}

/// What a read gave: a line, with or without its terminator, or the end
/// of the stream. A read that failed counts as the end.
#[derive(Debug, Clone, PartialEq, Eq)]
pub enum ReadOutcome {
    Line(String),
    End,
}

pub enum ReadOutcomeView {
    Line(Seq<char>),
    End,
}

impl View for ReadOutcome {
    type V = ReadOutcomeView;

    open spec fn view(&self) -> ReadOutcomeView {
        match self {
            ReadOutcome::Line(text) => ReadOutcomeView::Line(text@),
            ReadOutcome::End => ReadOutcomeView::End,
        }
    }
}

/// What the worker does after a read: emit an event and go on, go on
/// without an event, or emit a last event and stop.
#[derive(Debug, Clone, PartialEq, Eq)]
pub enum WorkerStep {
    Emit(ServerEvent),
    Skip,
    Stop(ServerEvent),
}

pub enum WorkerStepView {
    Emit(ServerEventView),
    Skip,
    Stop(ServerEventView),
}

impl View for WorkerStep {
    type V = WorkerStepView;

    open spec fn view(&self) -> WorkerStepView {
        match self {
            WorkerStep::Emit(event) => WorkerStepView::Emit(event@),
            WorkerStep::Skip => WorkerStepView::Skip,
            WorkerStep::Stop(event) => WorkerStepView::Stop(event@),
        }
    }
}

/// `line` without the carriage returns and line feeds at its end.
pub open spec fn strip_terminator_spec(line: Seq<char>) -> Seq<char>
    decreases line.len(),
{
    if line.len() > 0 && (line.last() == '\n' || line.last() == '\r') {
        strip_terminator_spec(line.drop_last())
    } else {
        line
    }
}

/// Strips the line terminator.
pub fn strip_terminator(line: &str) -> (r: &str)
    ensures
        r@ == strip_terminator_spec(line@),
{
    let chars = chars_of(line);
    let n: usize = chars.len();
    let mut end: usize = n;
    proof {
        assert(line@.take(n as int) =~= line@);
    }
    while end > 0 && (chars[end - 1] == '\n' || chars[end - 1] == '\r')
        invariant
            end <= n,
            n == line@.len(),
            chars@ == line@,
            strip_terminator_spec(line@) == strip_terminator_spec(line@.take(end as int)),
        decreases end,
    {
        proof {
            assert(line@.take(end as int).drop_last() =~= line@.take(end as int - 1));
        }
        end = end - 1;
    }
    proof {
        let kept = line@.take(end as int);
        assert(end > 0 ==> kept.last() == line@[end as int - 1]);
        assert(strip_terminator_spec(kept) == kept);
        assert(line@.subrange(0, end as int) =~= kept);
    }
    line.substring_char(0, end)
}

/// What a worker does with a read: the end of the stream, which an empty
/// read means too, ends the worker with `ClientDisconnected`; a line of
/// more than `MAX_LINE_BYTES` bytes is dropped; any other line is handed
/// on without its terminator.
pub open spec fn read_spec(client_id: u64, outcome: ReadOutcomeView) -> WorkerStepView {
    match outcome {
        ReadOutcomeView::End => WorkerStepView::Stop(
            ServerEventView::ClientDisconnected { client_id },
        ),
        ReadOutcomeView::Line(text) => if text.len() == 0 {
            WorkerStepView::Stop(ServerEventView::ClientDisconnected { client_id })
        } else if encode_utf8(text).len() > MAX_LINE_BYTES {
            WorkerStepView::Skip
        } else {
            WorkerStepView::Emit(
                ServerEventView::IrcCommand { client_id, message: strip_terminator_spec(text) },
            )
        },
    }
}

/// The event with which a worker announces its connection.
pub fn opened(client_id: u64, host: String) -> (event: ServerEvent)
    ensures
        event@ == (ServerEventView::ClientConnected { client_id, host: host@ }),
{
    ServerEvent::ClientConnected { client_id, host }
}

/// Decides what a worker does after a read.
pub fn read(client_id: u64, outcome: ReadOutcome) -> (step: WorkerStep)
    ensures
        step@ == read_spec(client_id, outcome@),
{
    match outcome {
        ReadOutcome::End => WorkerStep::Stop(ServerEvent::ClientDisconnected { client_id }),
        ReadOutcome::Line(text) => {
            if text.as_str().is_empty() {
                WorkerStep::Stop(ServerEvent::ClientDisconnected { client_id })
            } else if text.as_str().as_bytes().len() > MAX_LINE_BYTES {
                WorkerStep::Skip
            } else {
                WorkerStep::Emit(
                    ServerEvent::IrcCommand {
                        client_id,
                        message: strip_terminator(text.as_str()).to_owned(),
                    },
                )
            }
        },
    }
}

} // verus!
