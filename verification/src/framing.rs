//! Reassembly of frames from a byte stream that arrives in arbitrary chunks.
//!
//! The stream carries frames back to back with no length prefix. A frame is
//! complete once its two lines are closed, or its three where the keyword
//! carries content. A line that should be a keyword and is none is a frame
//! by itself, so that the stream falls into step again at the next keyword.

use vstd::prelude::*;
use crate::codec::{decode, find_line_end, kind_of_bytes, kind_of_first_line, parse_bytes};
use crate::command::{has_content, CommandView, Lcmd, Lcommand};
use crate::text::LINE_FEED;
use crate::fields::{field_end, lemma_field_end_bounds, lemma_field_end_extends};

verus! {

/// The length of the complete frame at the start of `s`, if there is one.
pub open spec fn frame_len(s: Seq<u8>) -> Option<int> {
    let e0 = field_end(s, LINE_FEED, 0);
    let e1 = field_end(s, LINE_FEED, e0 + 1);
    let e2 = field_end(s, LINE_FEED, e1 + 1);
    if e0 >= s.len() {
        None
    } else {
        match kind_of_bytes(s.subrange(0, e0)) {
            None => Some(e0 + 1),
            Some(kind) => if e1 >= s.len() {
                None
            } else if !has_content(kind) {
                Some(e1 + 1)
            } else if e2 >= s.len() {
                None
            } else {
                Some(e2 + 1)
            },
        }
    }
}

/// The complete frames that `s` starts with, in order.
pub open spec fn frames_of(s: Seq<u8>) -> Seq<Seq<u8>>
    decreases s.len(),
{
    match frame_len(s) {
        Some(n) => if 0 < n <= s.len() {
            seq![s.subrange(0, n)] + frames_of(s.subrange(n, s.len() as int))
        } else {
            Seq::empty()
        },
        None => Seq::empty(),
    }
}

/// What is left of `s` behind its complete frames: the start of a frame
/// that has not fully arrived.
pub open spec fn rest_of(s: Seq<u8>) -> Seq<u8>
    decreases s.len(),
{
    match frame_len(s) {
        Some(n) => if 0 < n <= s.len() {
            rest_of(s.subrange(n, s.len() as int))
        } else {
            s
        },
        None => s,
    }
}

/// The commands that a sequence of frames decodes to, in order; frames that
/// fail to decode are left out.
pub open spec fn commands_of(frames: Seq<Seq<u8>>) -> Seq<CommandView>
    decreases frames.len(),
{
    if frames.len() == 0 {
        Seq::empty()
    } else {
        let before = commands_of(frames.drop_last());
        match parse_bytes(frames.last()) {
            Ok(c) => before.push(c),
            Err(_) => before,
        }
    }
}

/// The frames held by a vector of byte vectors.
pub open spec fn frames_view(frames: Seq<Vec<u8>>) -> Seq<Seq<u8>> {
    Seq::new(frames.len(), |i: int| frames[i]@)
}

/// The commands held by a vector.
pub open spec fn commands_view(cmds: Seq<Lcommand>) -> Seq<CommandView> {
    Seq::new(cmds.len(), |i: int| cmds[i]@)
}

/// A complete frame is not empty and lies within the sequence.
pub proof fn lemma_frame_len_bounds(s: Seq<u8>)
    ensures
        frame_len(s) is Some ==> 1 <= frame_len(s)->0 <= s.len(),
{
    lemma_field_end_bounds(s, LINE_FEED, 0);
    let e0 = field_end(s, LINE_FEED, 0);
    if e0 < s.len() {
        lemma_field_end_bounds(s, LINE_FEED, e0 + 1);
        let e1 = field_end(s, LINE_FEED, e0 + 1);
        if e1 < s.len() {
            lemma_field_end_bounds(s, LINE_FEED, e1 + 1);
        }
    }
}

/// A complete frame stays the same frame whatever follows it.
pub proof fn lemma_frame_len_extends(a: Seq<u8>, b: Seq<u8>)
    requires
        frame_len(a) is Some,
    ensures
        frame_len(a + b) == frame_len(a),
{
    lemma_field_end_bounds(a, LINE_FEED, 0);
    let e0 = field_end(a, LINE_FEED, 0);
    lemma_field_end_extends(a, b, LINE_FEED, 0);
    assert((a + b).subrange(0, e0) =~= a.subrange(0, e0));
    if let Some(kind) = kind_of_bytes(a.subrange(0, e0)) {
        lemma_field_end_bounds(a, LINE_FEED, e0 + 1);
        let e1 = field_end(a, LINE_FEED, e0 + 1);
        lemma_field_end_extends(a, b, LINE_FEED, e0 + 1);
        if has_content(kind) {
            lemma_field_end_bounds(a, LINE_FEED, e1 + 1);
            lemma_field_end_extends(a, b, LINE_FEED, e1 + 1);
        }
    }
}

/// What is left behind the complete frames holds no complete frame.
pub proof fn lemma_rest_is_open(s: Seq<u8>)
    ensures
        frame_len(rest_of(s)) is None,
        frames_of(rest_of(s)) == Seq::<Seq<u8>>::empty(),
        rest_of(rest_of(s)) == rest_of(s),
    decreases s.len(),
{
    lemma_frame_len_bounds(s);
    if let Some(n) = frame_len(s) {
        lemma_rest_is_open(s.subrange(n, s.len() as int));
    }
}

/// Chunking: the frames of a stream received in two parts are the frames of
/// the first part, then those of what the first part left over followed by
/// the second part; and the same is left over at the end.
pub proof fn lemma_frames_chunked(a: Seq<u8>, b: Seq<u8>)
    ensures
        frames_of(a + b) == frames_of(a) + frames_of(rest_of(a) + b),
        rest_of(a + b) == rest_of(rest_of(a) + b),
    decreases a.len(),
{
    lemma_frame_len_bounds(a);
    match frame_len(a) {
        Some(n) => {
            lemma_frame_len_extends(a, b);
            let tail = a.subrange(n, a.len() as int);
            assert((a + b).subrange(0, n) =~= a.subrange(0, n));
            assert((a + b).subrange(n, (a + b).len() as int) =~= tail + b);
            lemma_frames_chunked(tail, b);
            assert(frames_of(a + b) =~= frames_of(a) + frames_of(rest_of(a) + b));
        },
        None => {
            assert(frames_of(a + b) =~= frames_of(a) + frames_of(rest_of(a) + b));
        },
    }
}

/// Decoding a run of frames is decoding its parts one after the other.
pub proof fn lemma_commands_concat(x: Seq<Seq<u8>>, y: Seq<Seq<u8>>)
    ensures
        commands_of(x + y) == commands_of(x) + commands_of(y),
    decreases y.len(),
{
    if y.len() == 0 {
        assert(x + y =~= x);
        assert(commands_of(x) + commands_of(y) =~= commands_of(x));
    } else {
        assert((x + y).drop_last() =~= x + y.drop_last());
        assert((x + y).last() == y.last());
        lemma_commands_concat(x, y.drop_last());
        assert(commands_of(x + y) =~= commands_of(x) + commands_of(y));
    }
}

/// Framing is independent of chunk boundaries: the commands decoded from a
/// stream fed whole are those decoded from its first part, followed by those
/// decoded once the second part has joined what the first left over.
pub proof fn lemma_commands_chunked(a: Seq<u8>, b: Seq<u8>)
    ensures
        commands_of(frames_of(a + b)) == commands_of(frames_of(a)) + commands_of(
            frames_of(rest_of(a) + b),
        ),
        rest_of(a + b) == rest_of(rest_of(a) + b),
{
    lemma_frames_chunked(a, b);
    lemma_commands_concat(frames_of(a), frames_of(rest_of(a) + b));
}

/// The bytes of a run of chunks, one after the other.
pub open spec fn joined_bytes(chunks: Seq<Seq<u8>>) -> Seq<u8>
    decreases chunks.len(),
{
    if chunks.len() == 0 {
        Seq::empty()
    } else {
        joined_bytes(chunks.drop_last()) + chunks.last()
    }
}

/// What a buffer that holds `pending` hands out when it receives a run of
/// chunks one by one, and what it holds afterwards.
pub open spec fn received_all(pending: Seq<u8>, chunks: Seq<Seq<u8>>) -> (Seq<CommandView>, Seq<u8>)
    decreases chunks.len(),
{
    if chunks.len() == 0 {
        (Seq::empty(), pending)
    } else {
        let (cmds, held) = received_all(pending, chunks.drop_last());
        let stream = held + chunks.last();
        (cmds + commands_of(frames_of(stream)), rest_of(stream))
    }
}

/// Framing is independent of chunk boundaries: a fresh buffer that receives
/// a stream in chunks, however the stream was cut, hands out the commands
/// that it hands out when it receives the stream whole, and holds the same
/// bytes at the end.
pub proof fn lemma_chunking_is_immaterial(chunks: Seq<Seq<u8>>)
    ensures
        received_all(Seq::empty(), chunks) == (
            commands_of(frames_of(joined_bytes(chunks))),
            rest_of(joined_bytes(chunks)),
        ),
    decreases chunks.len(),
{
    if chunks.len() == 0 {
        assert(frame_len(Seq::<u8>::empty()) is None);
        assert(commands_of(frames_of(Seq::<u8>::empty())) =~= Seq::empty());
    } else {
        lemma_chunking_is_immaterial(chunks.drop_last());
        lemma_commands_chunked(joined_bytes(chunks.drop_last()), chunks.last());
    }
}

/// The length of the complete frame at the start of `buf`, if there is one.
fn next_frame_len(buf: &Vec<u8>) -> (r: Option<usize>)
    ensures
        match r {
            Some(n) => frame_len(buf@) == Some(n as int) && 0 < n <= buf@.len(),
            None => frame_len(buf@) is None,
        },
{
    let bytes = buf.as_slice();
    let n = bytes.len();
    let e0 = find_line_end(bytes, 0);
    if e0 >= n {
        return None;
    }
    let with_content = match kind_of_first_line(bytes, e0) {
        None => {
            return Some(e0 + 1);
        },
        Some(Lcmd::Say) | Some(Lcmd::Nick) => true,
        Some(_) => false,
    };
    let e1 = find_line_end(bytes, e0 + 1);
    if e1 >= n {
        return None;
    }
    if !with_content {
        return Some(e1 + 1);
    }
    let e2 = find_line_end(bytes, e1 + 1);
    if e2 >= n {
        None
    } else {
        Some(e2 + 1)
    }
}

/// The bytes of a stream that have arrived and do not yet make a frame.
pub struct FrameBuffer {
    pub pending: Vec<u8>,
}

impl View for FrameBuffer {
    type V = Seq<u8>;

    open spec fn view(&self) -> Seq<u8> {
        self.pending@
    }
}

impl FrameBuffer {
    /// Whether the buffer is settled: it holds no complete frame.
    pub open spec fn wf(&self) -> bool {
        frame_len(self@) is None
    }

    /// An empty buffer, as at the start of a stream.
    pub fn new() -> (buffer: FrameBuffer)
        ensures
            buffer@ == Seq::<u8>::empty(),
            buffer.wf(),
    {
        FrameBuffer { pending: Vec::new() }
    }

    /// Takes in the bytes of one read and hands out the frames they
    /// complete, oldest first. An incomplete trailing frame stays buffered.
    pub fn feed(&mut self, chunk: &[u8]) -> (frames: Vec<Vec<u8>>)
        ensures
            frames_view(frames@) == frames_of(old(self)@ + chunk@),
            final(self)@ == rest_of(old(self)@ + chunk@),
            final(self).wf(),
    {
        let ghost stream = self.pending@ + chunk@;
        proof {
            lemma_rest_is_open(stream);
        }
        let mut i: usize = 0;
        while i < chunk.len()
            invariant
                i <= chunk@.len(),
                self.pending@ == old(self).pending@ + chunk@.subrange(0, i as int),
            decreases chunk@.len() - i,
        {
            self.pending.push(chunk[i]);
            i += 1;
            assert(self.pending@ =~= old(self).pending@ + chunk@.subrange(0, i as int));
        }
        assert(self.pending@ =~= stream);
        let mut frames: Vec<Vec<u8>> = Vec::new();
        assert(frames_view(frames@) + frames_of(self.pending@) =~= frames_of(stream));
        let mut next = next_frame_len(&self.pending);
        while next.is_some()
            invariant
                frames_view(frames@) + frames_of(self.pending@) == frames_of(stream),
                rest_of(self.pending@) == rest_of(stream),
                match next {
                    Some(n) => frame_len(self.pending@) == Some(n as int) && 0 < n
                        <= self.pending@.len(),
                    None => frame_len(self.pending@) is None,
                },
            decreases self.pending@.len(),
        {
            let n = next.unwrap();
            let ghost before = self.pending@;
            let ghost taken = frames_view(frames@);
            let mut frame = self.pending.split_off(n);
            core::mem::swap(&mut self.pending, &mut frame);
            frames.push(frame);
            assert(frames_view(frames@) =~= taken + seq![before.subrange(0, n as int)]);
            assert(frames_view(frames@) + frames_of(self.pending@) =~= taken + frames_of(before));
            next = next_frame_len(&self.pending);
        }
        assert(frames_view(frames@) + frames_of(self.pending@) =~= frames_view(frames@));
        frames
    }

    /// Takes in the bytes of one read and hands out the commands that the
    /// completed frames decode to, oldest first. A frame that does not decode
    /// is dropped, and the frames after it are still delivered.
    pub fn receive(&mut self, chunk: &[u8]) -> (cmds: Vec<Lcommand>)
        ensures
            commands_view(cmds@) == commands_of(frames_of(old(self)@ + chunk@)),
            final(self)@ == rest_of(old(self)@ + chunk@),
            final(self).wf(),
    {
        let frames = self.feed(chunk);
        let mut cmds: Vec<Lcommand> = Vec::new();
        let mut i: usize = 0;
        assert(frames_view(frames@).subrange(0, 0) =~= Seq::empty());
        while i < frames.len()
            invariant
                i <= frames@.len(),
                commands_view(cmds@) == commands_of(frames_view(frames@).subrange(0, i as int)),
            decreases frames@.len() - i,
        {
            let ghost done = commands_view(cmds@);
            let ghost upto = frames_view(frames@).subrange(0, i + 1);
            assert(upto.drop_last() =~= frames_view(frames@).subrange(0, i as int));
            assert(upto.last() == frames@[i as int]@);
            match decode(frames[i].as_slice()) {
                Ok(cmd) => {
                    cmds.push(cmd);
                    assert(commands_view(cmds@) =~= done.push(cmd@));
                },
                Err(_) => {},
            }
            i += 1;
        }
        assert(frames_view(frames@).subrange(0, i as int) =~= frames_view(frames@));
        cmds
    }
}

} // verus!
