//! Byte-level vocabulary shared by the reader and the writer: where a line
//! ends, how a text falls apart into lines, and how lines join up again.

use vstd::prelude::*;
use vstd::utf8::*;

verus! {

/// The line terminator.
pub const NEWLINE: u8 = 10;

/// The index just past the line that begins at `from`: one past the first
/// terminator found at or after `from`, or the end of `s` if there is none.
pub open spec fn line_end(s: Seq<u8>, from: int) -> int
    decreases s.len() - from,
{
    if from < 0 || from >= s.len() {
        s.len() as int
    } else if s[from] == NEWLINE {
        from + 1
    } else {
        line_end(s, from + 1)
    }
}

/// The lines of `s` from index `from` on, each with its terminator if it
/// has one.
pub open spec fn split_from(s: Seq<u8>, from: int) -> Seq<Seq<u8>>
    decreases s.len() - from,
    when 0 <= from
    via split_from_decreases
{
    if from >= s.len() {
        Seq::empty()
    } else {
        seq![s.subrange(from, line_end(s, from))] + split_from(s, line_end(s, from))
    }
}

#[via_fn]
proof fn split_from_decreases(s: Seq<u8>, from: int) {
    if from < s.len() {
        lemma_line_end_bounds(s, from);
    }
}

/// The lines of `s`, each with its terminator if it has one.
pub open spec fn split_lines(s: Seq<u8>) -> Seq<Seq<u8>> {
    split_from(s, 0)
}

/// All the pieces joined end to end.
pub open spec fn concat(pieces: Seq<Seq<u8>>) -> Seq<u8>
    decreases pieces.len(),
{
    if pieces.len() == 0 {
        Seq::empty()
    } else {
        concat(pieces.drop_last()) + pieces.last()
    }
}

/// A line is never empty and never runs past the end of the text.
pub proof fn lemma_line_end_bounds(s: Seq<u8>, from: int)
    requires
        0 <= from < s.len(),
    ensures
        from < line_end(s, from) <= s.len(),
    decreases s.len() - from,
{
    if s[from] != NEWLINE {
        if from + 1 < s.len() {
            lemma_line_end_bounds(s, from + 1);
        } else {
            assert(line_end(s, from + 1) == s.len());
        }
    }
}

/// Within a line the terminator stands last or not at all.
pub proof fn lemma_line_end_first_newline(s: Seq<u8>, from: int)
    requires
        0 <= from < s.len(),
    ensures
        forall|k: int| from <= k < line_end(s, from) - 1 ==> #[trigger] s[k] != NEWLINE,
        line_end(s, from) < s.len() ==> s[line_end(s, from) - 1] == NEWLINE,
    decreases s.len() - from,
{
    lemma_line_end_bounds(s, from);
    if s[from] != NEWLINE && from + 1 < s.len() {
        lemma_line_end_first_newline(s, from + 1);
        lemma_line_end_bounds(s, from + 1);
    }
}

/// In well-formed UTF-8 the byte after a one-byte character begins a
/// character, or the text ends there.
pub proof fn lemma_boundary_after_ascii(bytes: Seq<u8>, i: int)
    requires
        valid_utf8(bytes),
        0 <= i < bytes.len(),
        bytes[i] <= 0x7f,
    ensures
        is_char_boundary(bytes, i + 1),
    decreases bytes.len(),
{
    let width = length_of_first_scalar(bytes);
    let rest = pop_first_scalar(bytes);
    assert(valid_first_scalar(bytes) && valid_utf8(rest));
    if i == 0 {
        assert(width == 1);
        assert(is_char_boundary(rest, 0));
    } else if i < width {
        assert(is_continuation_byte(bytes[i]));
    } else {
        assert(rest[i - width] == bytes[i]);
        lemma_boundary_after_ascii(rest, i - width);
    }
}

/// Where a line ends does not depend on the text before it.
pub proof fn lemma_line_end_shift(s: Seq<u8>, base: int, from: int)
    requires
        0 <= base <= s.len(),
        0 <= from,
    ensures
        line_end(s.subrange(base, s.len() as int), from) == line_end(s, base + from) - base,
    decreases s.len() - base - from,
{
    let tail = s.subrange(base, s.len() as int);
    if from < tail.len() {
        assert(tail[from] == s[base + from]);
        if s[base + from] != NEWLINE {
            lemma_line_end_shift(s, base, from + 1);
        }
    }
}

/// The lines from `base` on are the lines of the text that begins at `base`.
pub proof fn lemma_split_shift(s: Seq<u8>, base: int, from: int)
    requires
        0 <= base <= s.len(),
        0 <= from,
    ensures
        split_from(s.subrange(base, s.len() as int), from) == split_from(s, base + from),
    decreases s.len() - base - from,
{
    let tail = s.subrange(base, s.len() as int);
    if from < tail.len() {
        lemma_line_end_shift(s, base, from);
        lemma_line_end_bounds(s, base + from);
        let end = line_end(s, base + from);
        assert(tail.subrange(from, end - base) =~= s.subrange(base + from, end));
        lemma_split_shift(s, base, end - base);
    }
}

/// Encoding a text piece by piece gives the encoding of the whole.
pub proof fn lemma_encode_concat(a: Seq<char>, b: Seq<char>)
    ensures
        encode_utf8(a + b) == encode_utf8(a) + encode_utf8(b),
    decreases a.len(),
{
    if a.len() == 0 {
        assert(a + b =~= b);
        assert(encode_utf8(a) + encode_utf8(b) =~= encode_utf8(b));
    } else {
        lemma_encode_concat(a.drop_first(), b);
        assert((a + b).drop_first() =~= a.drop_first() + b);
        assert(encode_utf8(a + b) =~= encode_utf8(a) + encode_utf8(b));
    }
}

} // verus!
