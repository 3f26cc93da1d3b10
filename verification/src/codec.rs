//! Encoding and decoding of commands: the codec of the wire form.
//!
//! A frame is the keyword line, the user line, and a content line for the
//! kinds that carry content; every line ends with a line feed.

use vstd::prelude::*;
use vstd::slice::slice_subrange;
use vstd::string::*;
use vstd::utf8::*;
use crate::command::{has_content, CommandView, Lcmd, Lcommand};
use crate::fields::{field_end, lemma_field_end_is};
use crate::text::{
    find_field_end, lemma_encode_concat, lemma_encode_injective, lemma_line_feed_byte,
    lemma_no_line_feed_bytes, LINE_FEED,
};

verus! {

/// Why a frame could not be decoded.
#[derive(Debug, Clone, Copy, PartialEq, Eq, Structural)]
pub enum DecodeError {
    /// The first field is none of the wire keywords.
    UnknownKeyword,
    /// The frame holds fewer fields than its keyword requires.
    Truncated,
}

/// The wire keyword of a kind. `Quit` has none.
pub open spec fn keyword(kind: Lcmd) -> Seq<char> {
    match kind {
        Lcmd::Say => "SAY"@,
        Lcmd::Conn => "CONNECT"@,
        Lcmd::Dc => "DISCONNECT"@,
        Lcmd::Nick => "NICK"@,
        Lcmd::Quit => Seq::empty(),
    }
}

/// The kind that a keyword field stands for, if any.
pub open spec fn kind_of(word: Seq<char>) -> Option<Lcmd> {
    if word == "SAY"@ {
        Some(Lcmd::Say)
    } else if word == "CONNECT"@ {
        Some(Lcmd::Conn)
    } else if word == "DISCONNECT"@ {
        Some(Lcmd::Dc)
    } else if word == "NICK"@ {
        Some(Lcmd::Nick)
    } else {
        None
    }
}

/// The frame of a command, as text.
pub open spec fn wire_text(c: CommandView) -> Seq<char> {
    let head = keyword(c.kind) + seq!['\n'] + c.user + seq!['\n'];
    if has_content(c.kind) {
        head + c.content + seq!['\n']
    } else {
        head
    }
}

/// What a text decodes to: its fields are split at line feeds, the last one
/// need not be closed, and what follows the required fields is ignored.
pub open spec fn parse_frame(s: Seq<char>) -> Result<CommandView, DecodeError> {
    let e0 = field_end(s, '\n', 0);
    let e1 = field_end(s, '\n', e0 + 1);
    let e2 = field_end(s, '\n', e1 + 1);
    match kind_of(s.subrange(0, e0)) {
        None => Err(DecodeError::UnknownKeyword),
        Some(kind) => if e0 >= s.len() {
            Err(DecodeError::Truncated)
        } else if !has_content(kind) {
            Ok(CommandView { kind, user: s.subrange(e0 + 1, e1), content: Seq::empty() })
        } else if e1 >= s.len() {
            Err(DecodeError::Truncated)
        } else {
            Ok(CommandView { kind, user: s.subrange(e0 + 1, e1), content: s.subrange(e1 + 1, e2) })
        },
    }
}

/// The kind that a keyword field stands for, as bytes, if any.
pub open spec fn kind_of_bytes(word: Seq<u8>) -> Option<Lcmd> {
    if word == encode_utf8("SAY"@) {
        Some(Lcmd::Say)
    } else if word == encode_utf8("CONNECT"@) {
        Some(Lcmd::Conn)
    } else if word == encode_utf8("DISCONNECT"@) {
        Some(Lcmd::Dc)
    } else if word == encode_utf8("NICK"@) {
        Some(Lcmd::Nick)
    } else {
        None
    }
}

/// What the bytes of a frame decode to: the fields are split at line feed
/// bytes, the last one need not be closed, what follows the required fields
/// is ignored, and the user and content fields are read as text.
pub open spec fn parse_bytes(s: Seq<u8>) -> Result<CommandView, DecodeError> {
    let e0 = field_end(s, LINE_FEED, 0);
    let e1 = field_end(s, LINE_FEED, e0 + 1);
    let e2 = field_end(s, LINE_FEED, e1 + 1);
    match kind_of_bytes(s.subrange(0, e0)) {
        None => Err(DecodeError::UnknownKeyword),
        Some(kind) => if e0 >= s.len() {
            Err(DecodeError::Truncated)
        } else if !has_content(kind) {
            Ok(
                CommandView {
                    kind,
                    user: read_text(s.subrange(e0 + 1, e1)),
                    content: Seq::empty(),
                },
            )
        } else if e1 >= s.len() {
            Err(DecodeError::Truncated)
        } else {
            Ok(
                CommandView {
                    kind,
                    user: read_text(s.subrange(e0 + 1, e1)),
                    content: read_text(s.subrange(e1 + 1, e2)),
                },
            )
        },
    }
}

/// A decoding result with the command taken by its view.
pub open spec fn decoded(r: Result<Lcommand, DecodeError>) -> Result<CommandView, DecodeError> {
    match r {
        Ok(c) => Ok(c@),
        Err(e) => Err(e),
    }
}

/// Whether a command is the frame form of itself: it can travel, its fields
/// hold no line feed, and it has content only where its kind carries some.
pub open spec fn is_wire_form(c: CommandView) -> bool {
    &&& c.kind != Lcmd::Quit
    &&& !c.user.contains('\n')
    &&& if has_content(c.kind) {
        !c.content.contains('\n')
    } else {
        c.content.len() == 0
    }
}

/// What `String::from_utf8_lossy` makes of a byte sequence: the text that
/// it is read as, with each malformed UTF-8 sequence replaced by U+FFFD.
pub uninterp spec fn lossy_text(bytes: Seq<u8>) -> Seq<char>;

/// The text that a byte sequence is read as: its decoding where it is
/// well-formed UTF-8, the lossy reading otherwise.
pub open spec fn read_text(bytes: Seq<u8>) -> Seq<char> {
    if valid_utf8(bytes) {
        decode_utf8(bytes)
    } else {
        lossy_text(bytes)
    }
}

/// `String::from_utf8_lossy`: the bytes read as UTF-8 text. Well-formed
/// input is decoded as it stands; the rest is only named.
#[verifier::external_body]
fn text_of(bytes: &[u8]) -> (text: String)
    ensures
        text@ == lossy_text(bytes@),
        valid_utf8(bytes@) ==> text@ == decode_utf8(bytes@),
{
    String::from_utf8_lossy(bytes).into_owned()
}

/// The end of the line of `bytes` that starts at `from`.
pub fn find_line_end(bytes: &[u8], from: usize) -> (end: usize)
    requires
        from <= bytes@.len(),
    ensures
        end == field_end(bytes@, LINE_FEED, from as int),
        from <= end <= bytes@.len(),
{
    let n = bytes.len();
    let mut i: usize = from;
    while i < n && bytes[i] != LINE_FEED
        invariant
            from <= i <= n,
            n == bytes@.len(),
            field_end(bytes@, LINE_FEED, from as int) == field_end(bytes@, LINE_FEED, i as int),
        decreases n - i,
    {
        i += 1;
    }
    i
}

/// Whether the first `end` bytes are the encoding of `word`.
fn starts_with_word(bytes: &[u8], end: usize, word: &str) -> (r: bool)
    requires
        end <= bytes@.len(),
    ensures
        r == (bytes@.subrange(0, end as int) == encode_utf8(word@)),
{
    let w = word.as_bytes();
    if w.len() != end {
        return false;
    }
    let mut i: usize = 0;
    while i < end
        invariant
            i <= end,
            end == w@.len(),
            end <= bytes@.len(),
            w@ == encode_utf8(word@),
            forall|j: int| 0 <= j < i ==> bytes@[j] == w@[j],
        decreases end - i,
    {
        if bytes[i] != w[i] {
            assert(bytes@.subrange(0, end as int)[i as int] != w@[i as int]);
            return false;
        }
        i += 1;
    }
    assert(bytes@.subrange(0, end as int) =~= w@);
    true
}

/// The kind named by the keyword in the first `end` bytes.
pub fn kind_of_first_line(bytes: &[u8], end: usize) -> (kind: Option<Lcmd>)
    requires
        end <= bytes@.len(),
    ensures
        kind == kind_of_bytes(bytes@.subrange(0, end as int)),
{
    if starts_with_word(bytes, end, "SAY") {
        Some(Lcmd::Say)
    } else if starts_with_word(bytes, end, "CONNECT") {
        Some(Lcmd::Conn)
    } else if starts_with_word(bytes, end, "DISCONNECT") {
        Some(Lcmd::Dc)
    } else if starts_with_word(bytes, end, "NICK") {
        Some(Lcmd::Nick)
    } else {
        None
    }
}

/// The kind named by a keyword field.
fn kind_of_word(word: &str) -> (kind: Option<Lcmd>)
    ensures
        kind == kind_of(word@),
{
    let w = String::from_str(word);
    if w == String::from_str("SAY") {
        Some(Lcmd::Say)
    } else if w == String::from_str("CONNECT") {
        Some(Lcmd::Conn)
    } else if w == String::from_str("DISCONNECT") {
        Some(Lcmd::Dc)
    } else if w == String::from_str("NICK") {
        Some(Lcmd::Nick)
    } else {
        None
    }
}

/// Encodes a command as the text of its frame. `Quit` has no frame.
pub fn encode_text(cmd: &Lcommand) -> (text: String)
    requires
        cmd.cmd_type != Lcmd::Quit,
    ensures
        text@ == wire_text(cmd@),
{
    proof {
        reveal_strlit("\n");
    }
    let mut text = String::new();
    match cmd.cmd_type {
        Lcmd::Say => text.append("SAY"),
        Lcmd::Conn => text.append("CONNECT"),
        Lcmd::Dc => text.append("DISCONNECT"),
        Lcmd::Nick => text.append("NICK"),
        Lcmd::Quit => {},
    }
    text.append("\n");
    text.append(cmd.user.as_str());
    text.append("\n");
    match cmd.cmd_type {
        Lcmd::Say | Lcmd::Nick => {
            text.append(cmd.content.as_str());
            text.append("\n");
        },
        _ => {},
    }
    assert(text@ =~= wire_text(cmd@));
    text
}

/// Encodes a command as the bytes of its frame: its text in UTF-8.
pub fn encode(cmd: &Lcommand) -> (bytes: Vec<u8>)
    requires
        cmd.cmd_type != Lcmd::Quit,
    ensures
        bytes@ == wire_bytes(cmd@),
{
    let text = encode_text(cmd);
    text.as_str().as_bytes_vec()
}

/// Decodes the text of a frame. Never fails otherwise than by an error.
pub fn decode_text(buf: &str) -> (r: Result<Lcommand, DecodeError>)
    ensures
        decoded(r) == parse_frame(buf@),
{
    let n = buf.unicode_len();
    let e0 = find_field_end(buf, '\n', 0);
    let kind = match kind_of_word(buf.substring_char(0, e0)) {
        None => {
            return Err(DecodeError::UnknownKeyword);
        },
        Some(kind) => kind,
    };
    if e0 >= n {
        return Err(DecodeError::Truncated);
    }
    let e1 = find_field_end(buf, '\n', e0 + 1);
    let user = String::from_str(buf.substring_char(e0 + 1, e1));
    match kind {
        Lcmd::Say | Lcmd::Nick => {
            if e1 >= n {
                return Err(DecodeError::Truncated);
            }
            let e2 = find_field_end(buf, '\n', e1 + 1);
            let content = String::from_str(buf.substring_char(e1 + 1, e2));
            Ok(Lcommand { cmd_type: kind, user, content })
        },
        _ => Ok(Lcommand { cmd_type: kind, user, content: String::new() }),
    }
}

/// Decodes the bytes of a frame. Never fails otherwise than by an error.
pub fn decode(bytes: &[u8]) -> (r: Result<Lcommand, DecodeError>)
    ensures
        decoded(r) == parse_bytes(bytes@),
{
    let n = bytes.len();
    let e0 = find_line_end(bytes, 0);
    let kind = match kind_of_first_line(bytes, e0) {
        None => {
            return Err(DecodeError::UnknownKeyword);
        },
        Some(kind) => kind,
    };
    if e0 >= n {
        return Err(DecodeError::Truncated);
    }
    let e1 = find_line_end(bytes, e0 + 1);
    let user = text_of(slice_subrange(bytes, e0 + 1, e1));
    match kind {
        Lcmd::Say | Lcmd::Nick => {
            if e1 >= n {
                return Err(DecodeError::Truncated);
            }
            let e2 = find_line_end(bytes, e1 + 1);
            let content = text_of(slice_subrange(bytes, e1 + 1, e2));
            Ok(Lcommand { cmd_type: kind, user, content })
        },
        _ => Ok(Lcommand { cmd_type: kind, user, content: String::new() }),
    }
}

impl Lcommand {
    /// Decodes a received frame.
    pub fn from(buf: String) -> (r: Result<Lcommand, DecodeError>)
        ensures
            decoded(r) == parse_frame(buf@),
    {
        decode_text(buf.as_str())
    }
}

/// The keywords hold no line feed and name their own kinds.
pub proof fn lemma_keywords(kind: Lcmd)
    requires
        kind != Lcmd::Quit,
    ensures
        !keyword(kind).contains('\n'),
        kind_of(keyword(kind)) == Some(kind),
{
    reveal_strlit("SAY");
    reveal_strlit("CONNECT");
    reveal_strlit("DISCONNECT");
    reveal_strlit("NICK");
    assert("SAY"@.len() == 3 && "NICK"@.len() == 4 && "CONNECT"@.len() == 7 && "DISCONNECT"@.len() == 10);
}

/// Round trip: a command in wire form decodes from its own frame.
pub proof fn lemma_round_trip(c: CommandView)
    requires
        is_wire_form(c),
    ensures
        parse_frame(wire_text(c)) == Ok::<CommandView, DecodeError>(c),
{
    lemma_keywords(c.kind);
    let nl = seq!['\n'];
    let k = keyword(c.kind);
    let s = wire_text(c);
    let e0 = k.len() as int;
    let e1 = e0 + 1 + c.user.len();
    assert forall|j: int| 0 <= j < e0 implies s[j] != '\n' by {
        assert(s[j] == k[j]);
        assert(k.contains(k[j]));
    }
    assert(s[e0] == '\n');
    lemma_field_end_is(s, '\n', 0, e0);
    assert forall|j: int| e0 + 1 <= j < e1 implies s[j] != '\n' by {
        assert(s[j] == c.user[j - e0 - 1]);
        assert(c.user.contains(c.user[j - e0 - 1]));
    }
    assert(s[e1] == '\n');
    lemma_field_end_is(s, '\n', e0 + 1, e1);
    assert(s.subrange(0, e0) =~= k);
    assert(s.subrange(e0 + 1, e1) =~= c.user);
    if has_content(c.kind) {
        let e2 = e1 + 1 + c.content.len();
        assert forall|j: int| e1 + 1 <= j < e2 implies s[j] != '\n' by {
            assert(s[j] == c.content[j - e1 - 1]);
            assert(c.content.contains(c.content[j - e1 - 1]));
        }
        assert(s[e2] == '\n');
        lemma_field_end_is(s, '\n', e1 + 1, e2);
        assert(s.subrange(e1 + 1, e2) =~= c.content);
    } else {
        assert(c.content =~= Seq::empty());
    }
}

/// The frame of a command, as bytes: its text in UTF-8.
pub open spec fn wire_bytes(c: CommandView) -> Seq<u8> {
    encode_utf8(wire_text(c))
}

/// The encoded keywords name their own kinds.
pub proof fn lemma_keyword_bytes(kind: Lcmd)
    requires
        kind != Lcmd::Quit,
    ensures
        kind_of_bytes(encode_utf8(keyword(kind))) == Some(kind),
{
    lemma_keywords(kind);
    let k = keyword(kind);
    if encode_utf8(k) == encode_utf8("SAY"@) {
        lemma_encode_injective(k, "SAY"@);
    }
    if encode_utf8(k) == encode_utf8("CONNECT"@) {
        lemma_encode_injective(k, "CONNECT"@);
    }
    if encode_utf8(k) == encode_utf8("DISCONNECT"@) {
        lemma_encode_injective(k, "DISCONNECT"@);
    }
    if encode_utf8(k) == encode_utf8("NICK"@) {
        lemma_encode_injective(k, "NICK"@);
    }
}

/// Where the fields of an encoded command lie: in any byte sequence that
/// starts with the frame of a command in wire form, the lines end where the
/// encoded keyword, user and content end, and hold exactly those.
pub proof fn lemma_wire_layout(c: CommandView, tail: Seq<u8>)
    requires
        is_wire_form(c),
    ensures
        ({
            let s = wire_bytes(c) + tail;
            let k = encode_utf8(keyword(c.kind));
            let u = encode_utf8(c.user);
            let t = encode_utf8(c.content);
            let e0 = k.len() as int;
            let e1 = e0 + 1 + u.len();
            let e2 = e1 + 1 + t.len();
            &&& field_end(s, LINE_FEED, 0) == e0
            &&& field_end(s, LINE_FEED, e0 + 1) == e1
            &&& s.subrange(0, e0) == k
            &&& s.subrange(e0 + 1, e1) == u
            &&& if has_content(c.kind) {
                &&& wire_bytes(c).len() == e2 + 1
                &&& field_end(s, LINE_FEED, e1 + 1) == e2
                &&& s.subrange(e1 + 1, e2) == t
            } else {
                wire_bytes(c).len() == e1 + 1
            }
        }),
{
    let nl = seq!['\n'];
    let lf = seq![LINE_FEED];
    let k = encode_utf8(keyword(c.kind));
    let u = encode_utf8(c.user);
    let t = encode_utf8(c.content);
    let head = keyword(c.kind) + nl + c.user + nl;
    lemma_line_feed_byte();
    lemma_encode_concat(keyword(c.kind), nl);
    lemma_encode_concat(keyword(c.kind) + nl, c.user);
    lemma_encode_concat(keyword(c.kind) + nl + c.user, nl);
    assert(encode_utf8(head) == k + lf + u + lf);
    lemma_keywords(c.kind);
    lemma_no_line_feed_bytes(keyword(c.kind));
    lemma_no_line_feed_bytes(c.user);
    let s = wire_bytes(c) + tail;
    let e0 = k.len() as int;
    let e1 = e0 + 1 + u.len();
    if has_content(c.kind) {
        lemma_encode_concat(head, c.content);
        lemma_encode_concat(head + c.content, nl);
        assert(wire_bytes(c) == k + lf + u + lf + t + lf);
        lemma_no_line_feed_bytes(c.content);
        let e2 = e1 + 1 + t.len();
        assert forall|j: int| e1 + 1 <= j < e2 implies s[j] != LINE_FEED by {
            assert(s[j] == t[j - e1 - 1]);
        }
        assert(s[e2] == LINE_FEED);
        lemma_field_end_is(s, LINE_FEED, e1 + 1, e2);
        assert(s.subrange(e1 + 1, e2) =~= t);
    } else {
        assert(wire_bytes(c) == k + lf + u + lf);
    }
    assert forall|j: int| 0 <= j < e0 implies s[j] != LINE_FEED by {
        assert(s[j] == k[j]);
    }
    assert(s[e0] == LINE_FEED);
    lemma_field_end_is(s, LINE_FEED, 0, e0);
    assert forall|j: int| e0 + 1 <= j < e1 implies s[j] != LINE_FEED by {
        assert(s[j] == u[j - e0 - 1]);
    }
    assert(s[e1] == LINE_FEED);
    lemma_field_end_is(s, LINE_FEED, e0 + 1, e1);
    assert(s.subrange(0, e0) =~= k);
    assert(s.subrange(e0 + 1, e1) =~= u);
}

/// Round trip on bytes: decoding the encoded frame of a command in wire
/// form gives the command back.
pub proof fn lemma_round_trip_bytes(c: CommandView)
    requires
        is_wire_form(c),
    ensures
        parse_bytes(wire_bytes(c)) == Ok::<CommandView, DecodeError>(c),
{
    lemma_wire_layout(c, Seq::empty());
    assert(wire_bytes(c) + Seq::<u8>::empty() =~= wire_bytes(c));
    lemma_keyword_bytes(c.kind);
    encode_utf8_valid_utf8(c.user);
    encode_utf8_decode_utf8(c.user);
    encode_utf8_valid_utf8(c.content);
    encode_utf8_decode_utf8(c.content);
    if !has_content(c.kind) {
        assert(c.content =~= Seq::empty());
    }
}

} // verus!
