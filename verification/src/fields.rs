//! Fields of a separator-delimited sequence.

use vstd::prelude::*;

verus! {

/// The position of the first `sep` in `s` at or after `from`, or the length
/// of `s` where there is none: the end of the field that starts at `from`.
pub open spec fn field_end<T>(s: Seq<T>, sep: T, from: int) -> int
    decreases s.len() - from,
{
    if from >= s.len() {
        s.len() as int
    } else if s[from] == sep {
        from
    } else {
        field_end(s, sep, from + 1)
    }
}

/// A field ends within the sequence, at a separator or at the very end, and
/// holds no separator itself.
pub proof fn lemma_field_end_bounds<T>(s: Seq<T>, sep: T, from: int)
    requires
        0 <= from <= s.len(),
    ensures
        from <= field_end(s, sep, from) <= s.len(),
        field_end(s, sep, from) < s.len() ==> s[field_end(s, sep, from)] == sep,
        forall|j: int| from <= j < field_end(s, sep, from) ==> s[j] != sep,
    decreases s.len() - from,
{
    if from < s.len() && s[from] != sep {
        lemma_field_end_bounds(s, sep, from + 1);
    }
}

/// The end of a field is the only position that follows a run without
/// separators and is itself a separator or the end of the sequence.
pub proof fn lemma_field_end_is<T>(s: Seq<T>, sep: T, from: int, end: int)
    requires
        0 <= from <= end <= s.len(),
        forall|j: int| from <= j < end ==> s[j] != sep,
        end == s.len() || s[end] == sep,
    ensures
        field_end(s, sep, from) == end,
    decreases end - from,
{
    if from < end {
        lemma_field_end_is(s, sep, from + 1, end);
    }
}

/// A field that ends at a separator ends at the same place however the
/// sequence goes on.
pub proof fn lemma_field_end_extends<T>(a: Seq<T>, b: Seq<T>, sep: T, from: int)
    requires
        0 <= from <= a.len(),
        field_end(a, sep, from) < a.len(),
    ensures
        field_end(a + b, sep, from) == field_end(a, sep, from),
{
    lemma_field_end_bounds(a, sep, from);
    let end = field_end(a, sep, from);
    assert forall|j: int| from <= j < end implies (a + b)[j] != sep by {
        assert((a + b)[j] == a[j]);
    }
    assert((a + b)[end] == a[end]);
    lemma_field_end_is(a + b, sep, from, end);
}

} // verus!
