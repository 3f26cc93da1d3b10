//! The decisions of the two tasks that serve a socket: what the writer puts
//! on the wire for a queued command, and what the reader makes of a read.

use vstd::prelude::*;
use vstd::slice::slice_subrange;
use crate::codec::{encode, wire_bytes};
use crate::command::{Lcmd, Lcommand};
use crate::framing::{commands_of, commands_view, frames_of, rest_of, FrameBuffer};

verus! {

/// What the writer does with one queued command.
pub struct WriteStep {
    /// The bytes to write, if the command travels at all.
    pub frame: Option<Vec<u8>>,
    /// Whether the writer closes the stream and ends once they are written.
    pub last: bool,
}

/// How one read of the socket went.
#[derive(Debug, Clone, Copy, PartialEq, Eq, Structural)]
pub enum ReadOutcome {
    /// The read returned; what it read may be empty, at the end of the
    /// stream.
    Filled,
    /// The read gave up waiting and may be tried again.
    Retry,
    /// The read failed.
    Broken,
}

/// What the reader does after one read.
pub struct ReadStep {
    /// The commands to forward, oldest first.
    pub commands: Vec<Lcommand>,
    /// Whether the reader reads on; if not, it ends, and the end of its
    /// queue tells the client that the connection is lost.
    pub go_on: bool,
}

/// Whether a read lets the reader go on: it does unless the read failed or
/// found the end of the stream.
pub open spec fn reads_on(outcome: ReadOutcome, chunk: Seq<u8>) -> bool {
    match outcome {
        ReadOutcome::Filled => chunk.len() > 0,
        ReadOutcome::Retry => true,
        ReadOutcome::Broken => false,
    }
}

/// The bytes that a read adds to the stream.
pub open spec fn bytes_read(outcome: ReadOutcome, chunk: Seq<u8>) -> Seq<u8> {
    match outcome {
        ReadOutcome::Filled => chunk,
        _ => Seq::empty(),
    }
}

/// Decides what the writer does with a queued command: every command but
/// `Quit` is written as its frame, and a `Dc` is the last one written.
pub fn write_step(cmd: &Lcommand) -> (step: WriteStep)
    ensures
        cmd.cmd_type == Lcmd::Quit ==> step.frame is None && !step.last,
        cmd.cmd_type != Lcmd::Quit ==> {
            &&& step.frame is Some
            &&& step.frame->0@ == wire_bytes(cmd@)
            &&& step.last == (cmd.cmd_type == Lcmd::Dc)
        },
{
    match cmd.cmd_type {
        Lcmd::Quit => WriteStep { frame: None, last: false },
        _ => WriteStep { frame: Some(encode(cmd)), last: cmd.closes_stream() },
    }
}

/// Decides what the reader does after a read that gave `chunk`: the bytes
/// join the buffer, the commands of the frames they complete are forwarded,
/// and the reader ends at the end of the stream and on a failure.
pub fn read_step(buffer: &mut FrameBuffer, outcome: ReadOutcome, chunk: &[u8]) -> (step: ReadStep)
    ensures
        step.go_on == reads_on(outcome, chunk@),
        commands_view(step.commands@) == commands_of(
            frames_of(old(buffer)@ + bytes_read(outcome, chunk@)),
        ),
        final(buffer)@ == rest_of(old(buffer)@ + bytes_read(outcome, chunk@)),
        final(buffer).wf(),
{
    match outcome {
        ReadOutcome::Filled => {
            let commands = buffer.receive(chunk);
            ReadStep { commands, go_on: chunk.len() > 0 }
        },
        _ => {
            let nothing = slice_subrange(chunk, 0, 0);
            assert(nothing@ =~= Seq::<u8>::empty());
            let commands = buffer.receive(nothing);
            ReadStep { commands, go_on: outcome == ReadOutcome::Retry }
        },
    }
}

} // verus!
