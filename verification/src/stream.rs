//! The codec and the framing taken together: a stream of encoded commands
//! is cut into the frames that were written and decodes to the commands
//! that were sent.

use vstd::prelude::*;
use crate::codec::{
    is_wire_form, lemma_keyword_bytes, lemma_round_trip_bytes, lemma_wire_layout, wire_bytes,
};
use crate::command::CommandView;
use crate::framing::{commands_of, frame_len, frames_of, rest_of};

verus! {

/// The bytes of a run of commands, frame after frame.
pub open spec fn stream_of(cmds: Seq<CommandView>) -> Seq<u8>
    decreases cmds.len(),
{
    if cmds.len() == 0 {
        Seq::empty()
    } else {
        wire_bytes(cmds[0]) + stream_of(cmds.drop_first())
    }
}

/// The frames of a run of commands.
pub open spec fn frames_for(cmds: Seq<CommandView>) -> Seq<Seq<u8>> {
    Seq::new(cmds.len(), |i: int| wire_bytes(cmds[i]))
}

/// Whether every command of a run is in wire form.
pub open spec fn all_wire_form(cmds: Seq<CommandView>) -> bool {
    forall|i: int| 0 <= i < cmds.len() ==> is_wire_form(#[trigger] cmds[i])
}

/// The frame of a command in wire form is found at the head of any stream
/// that starts with it, whatever follows.
pub proof fn lemma_frame_found(c: CommandView, tail: Seq<u8>)
    requires
        is_wire_form(c),
    ensures
        frame_len(wire_bytes(c) + tail) == Some(wire_bytes(c).len() as int),
        wire_bytes(c).len() > 0,
{
    lemma_wire_layout(c, tail);
    lemma_keyword_bytes(c.kind);
}

/// A stream of encoded commands is cut into exactly their frames, and
/// nothing is left over.
pub proof fn lemma_frames_of_stream(cmds: Seq<CommandView>)
    requires
        all_wire_form(cmds),
    ensures
        frames_of(stream_of(cmds)) == frames_for(cmds),
        rest_of(stream_of(cmds)) == Seq::<u8>::empty(),
    decreases cmds.len(),
{
    if cmds.len() == 0 {
        assert(frame_len(Seq::<u8>::empty()) is None);
        assert(frames_of(stream_of(cmds)) =~= frames_for(cmds));
    } else {
        let first = wire_bytes(cmds[0]);
        let later = cmds.drop_first();
        let tail = stream_of(later);
        let s = stream_of(cmds);
        assert(all_wire_form(later)) by {
            assert forall|i: int| 0 <= i < later.len() implies is_wire_form(
                #[trigger] later[i],
            ) by {
                assert(later[i] == cmds[i + 1]);
            }
        }
        lemma_frame_found(cmds[0], tail);
        lemma_frames_of_stream(later);
        assert(s.subrange(0, first.len() as int) =~= first);
        assert(s.subrange(first.len() as int, s.len() as int) =~= tail);
        assert(frames_of(s) =~= frames_for(cmds)) by {
            assert(frames_of(s) == seq![first] + frames_for(later));
        }
    }
}

/// The frames of commands in wire form decode to the commands.
pub proof fn lemma_commands_of_frames(cmds: Seq<CommandView>)
    requires
        all_wire_form(cmds),
    ensures
        commands_of(frames_for(cmds)) == cmds,
    decreases cmds.len(),
{
    if cmds.len() == 0 {
        assert(commands_of(frames_for(cmds)) =~= cmds);
    } else {
        let before = cmds.drop_last();
        assert(all_wire_form(before));
        lemma_commands_of_frames(before);
        assert(frames_for(cmds).drop_last() =~= frames_for(before));
        lemma_round_trip_bytes(cmds.last());
        assert(commands_of(frames_for(cmds)) =~= cmds);
    }
}

/// End to end: what a peer encodes, frame after frame, is what a fresh
/// buffer that has received all of it has handed out, with nothing held
/// back.
pub proof fn lemma_stream_round_trip(cmds: Seq<CommandView>)
    requires
        all_wire_form(cmds),
    ensures
        commands_of(frames_of(stream_of(cmds))) == cmds,
        rest_of(stream_of(cmds)) == Seq::<u8>::empty(),
{
    lemma_frames_of_stream(cmds);
    lemma_commands_of_frames(cmds);
}

} // verus!
