//! Helpers on text: finding the end of a field, removing line feeds, and
//! what the UTF-8 encoding does to line feeds.

use vstd::prelude::*;
use vstd::string::*;
use vstd::utf8::*;
use crate::fields::field_end;

verus! {

/// A text with every line feed taken out.
pub open spec fn without_line_feeds(s: Seq<char>) -> Seq<char>
    decreases s.len(),
{
    if s.len() == 0 {
        Seq::empty()
    } else if s.last() == '\n' {
        without_line_feeds(s.drop_last())
    } else {
        without_line_feeds(s.drop_last()).push(s.last())
    }
}

/// A text without its line feeds holds none, and a text that held none is
/// left as it was.
pub proof fn lemma_without_line_feeds(s: Seq<char>)
    ensures
        !without_line_feeds(s).contains('\n'),
        !s.contains('\n') ==> without_line_feeds(s) == s,
    decreases s.len(),
{
    if s.len() > 0 {
        let init = s.drop_last();
        lemma_without_line_feeds(init);
        let r = without_line_feeds(s);
        assert forall|j: int| 0 <= j < r.len() implies r[j] != '\n' by {
            if j < without_line_feeds(init).len() {
                assert(without_line_feeds(init).contains(without_line_feeds(init)[j]));
            }
        }
        if !s.contains('\n') {
            assert forall|j: int| 0 <= j < init.len() implies init[j] != '\n' by {
                assert(s.contains(s[j]));
            }
            assert(s.contains(s.last()));
            assert(init.push(s.last()) =~= s);
        }
    }
}

/// The line feed as a byte.
pub const LINE_FEED: u8 = 0x0a;

/// The encoding of a text in two parts is the encoding of the parts.
pub proof fn lemma_encode_concat(a: Seq<char>, b: Seq<char>)
    ensures
        encode_utf8(a + b) == encode_utf8(a) + encode_utf8(b),
    decreases a.len(),
{
    if a.len() == 0 {
        assert(a + b =~= b);
        assert(encode_utf8(a) + encode_utf8(b) =~= encode_utf8(b));
    } else {
        assert((a + b)[0] == a[0]);
        assert((a + b).drop_first() =~= a.drop_first() + b);
        lemma_encode_concat(a.drop_first(), b);
        assert(encode_utf8(a + b) =~= encode_utf8(a) + encode_utf8(b));
    }
}

/// Two texts with the same encoding are the same text.
pub proof fn lemma_encode_injective(a: Seq<char>, b: Seq<char>)
    requires
        encode_utf8(a) == encode_utf8(b),
    ensures
        a == b,
{
    encode_utf8_decode_utf8(a);
    encode_utf8_decode_utf8(b);
}

/// No byte of the encoding of a scalar other than the line feed is the
/// line feed byte.
proof fn lemma_scalar_bytes(v: u32)
    requires
        v != 0x0a,
    ensures
        forall|j: int| 0 <= j < encode_scalar(v).len() ==> encode_scalar(v)[j] != LINE_FEED,
{
    assert(has_width_1_encoding(v) ==> leading_byte_width_1(v) != 0x0au8) by (bit_vector)
        requires
            v != 0x0a,
    ;
    assert(leading_byte_width_2(v) != 0x0au8) by (bit_vector);
    assert(leading_byte_width_3(v) != 0x0au8) by (bit_vector);
    assert(leading_byte_width_4(v) != 0x0au8) by (bit_vector);
    assert(last_continuation_byte(v) != 0x0au8) by (bit_vector);
    assert(second_last_continuation_byte(v) != 0x0au8) by (bit_vector);
    assert(third_last_continuation_byte(v) != 0x0au8) by (bit_vector);
}

/// A text without line feeds is encoded without the line feed byte.
pub proof fn lemma_no_line_feed_bytes(s: Seq<char>)
    requires
        !s.contains('\n'),
    ensures
        forall|j: int| 0 <= j < encode_utf8(s).len() ==> encode_utf8(s)[j] != LINE_FEED,
    decreases s.len(),
{
    if s.len() > 0 {
        let tail = s.drop_first();
        assert(s.contains(s[0]));
        assert forall|j: int| 0 <= j < tail.len() implies tail[j] != '\n' by {
            assert(s.contains(s[j + 1]));
        }
        lemma_no_line_feed_bytes(tail);
        let v = s[0] as u32;
        assert(v != 0x0a) by {
            char_u32_cast(s[0], v);
            if v == 0x0a {
                assert(0x0au32 as char == '\n');
            }
        }
        lemma_scalar_bytes(v);
        let e = encode_utf8(s);
        let first = encode_scalar(v);
        assert(e == first + encode_utf8(tail));
        assert forall|j: int| 0 <= j < e.len() implies e[j] != LINE_FEED by {
            if j < first.len() {
                assert(e[j] == first[j]);
            } else {
                assert(e[j] == encode_utf8(tail)[j - first.len()]);
            }
        }
    }
}

/// The line feed is encoded as the line feed byte alone.
pub proof fn lemma_line_feed_byte()
    ensures
        encode_utf8(seq!['\n']) == seq![LINE_FEED],
{
    let s = seq!['\n'];
    assert(is_ascii_chars(s));
    is_ascii_chars_encode_utf8(s);
    assert(encode_utf8(s)[0] == s[0] as u8);
    assert(encode_utf8(s) =~= seq![LINE_FEED]);
}

/// The end of the field of `s` that starts at `from`, with `sep` between
/// fields.
pub fn find_field_end(s: &str, sep: char, from: usize) -> (end: usize)
    requires
        from <= s@.len(),
    ensures
        end == field_end(s@, sep, from as int),
        from <= end <= s@.len(),
{
    let n = s.unicode_len();
    let mut i: usize = from;
    while i < n && s.get_char(i) != sep
        invariant
            from <= i <= n,
            n == s@.len(),
            field_end(s@, sep, from as int) == field_end(s@, sep, i as int),
        decreases n - i,
    {
        i += 1;
    }
    i
}

/// Copies a text without its line feeds.
pub fn strip_line_feeds(s: &str) -> (out: String)
    ensures
        out@ == without_line_feeds(s@),
{
    let n = s.unicode_len();
    let mut out = String::new();
    let mut i: usize = 0;
    assert(s@.subrange(0, 0) =~= Seq::empty());
    while i < n
        invariant
            i <= n,
            n == s@.len(),
            out@ == without_line_feeds(s@.subrange(0, i as int)),
        decreases n - i,
    {
        let ghost upto = s@.subrange(0, i + 1);
        assert(upto.drop_last() =~= s@.subrange(0, i as int));
        assert(upto.last() == s@[i as int]);
        if s.get_char(i) != '\n' {
            out.append(s.substring_char(i, i + 1));
            assert(s@.subrange(i as int, i + 1) =~= seq![s@[i as int]]);
            assert(out@ =~= without_line_feeds(upto));
        }
        i += 1;
    }
    assert(s@.subrange(0, n as int) =~= s@);
    out
}

} // verus!
