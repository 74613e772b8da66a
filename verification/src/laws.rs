//! What holds of the library as a whole: how many records a text falls
//! into, that what is written can be traced back to what was read, that a
//! search gives the same output every time, and what happens at the edges.

use crate::capabilities::{style_off, style_on, Slot};
use crate::handler::Handler;
use crate::lines::{numbered, LineView};
use crate::records::{
    begins, grouped_upto, lemma_records_len, marked_before, marks_of, records_of, RecordView,
};
use crate::select::{lemma_stopped_absorbs, Outcome, Phase, Progress};
use crate::text::{
    concat, lemma_line_end_bounds, lemma_line_end_first_newline, lemma_split_shift, line_end,
    split_from, split_lines, NEWLINE,
};
use crate::write::{
    content_end, count_line, earlier, later, painted, prefix, rendered, rendered_from, Format,
};
use crate::{exit_for, Exit};
use regex_automata::meta::Regex;
use vstd::prelude::*;

verus! {

/// The number of lines among the first `n`, the very first left aside,
/// that are marked as matching the record-start pattern.
pub open spec fn count_boundaries(marks: Seq<bool>, n: int) -> nat
    decreases n,
{
    if n <= 1 {
        0
    } else {
        count_boundaries(marks, n - 1) + if marks[n - 1] {
            1nat
        } else {
            0nat
        }
    }
}

/// The number of lines among the first `n`, the very first left aside,
/// that come before any line is marked as matching the record-start
/// pattern.
pub open spec fn count_orphans(marks: Seq<bool>, n: int) -> nat
    decreases n,
{
    if n <= 1 {
        0
    } else {
        count_orphans(marks, n - 1) + if !marked_before(marks, n) {
            1nat
        } else {
            0nat
        }
    }
}

/// A text that is not empty falls into one record for its first line, one
/// for every later line that matches the record-start pattern, and one
/// for every later line that comes before the first match.
pub proof fn lemma_record_count(lines: Seq<LineView>, marks: Seq<bool>, n: int)
    requires
        1 <= n <= lines.len(),
        marks.len() == lines.len(),
    ensures
        grouped_upto(lines, marks, n).len() == 1 + count_boundaries(marks, n) + count_orphans(
            marks,
            n,
        ),
    decreases n,
{
    if n > 1 {
        lemma_record_count(lines, marks, n - 1);
        if marked_before(marks, n) && !marks[n - 1] {
            let j = choose|j: int| 0 <= j < n && j < marks.len() && #[trigger] marks[j];
            assert(j < n - 1);
            assert(marked_before(marks, n - 1));
        }
        if marked_before(marks, n - 1) {
            let j = choose|j: int| 0 <= j < n - 1 && j < marks.len() && #[trigger] marks[j];
            assert(marked_before(marks, n));
        }
        if marks[n - 1] {
            assert(marked_before(marks, n));
        }
    } else {
        assert(grouped_upto(lines, marks, 0).len() == 0);
    }
}

/// The same of the records that a record-start pattern makes of a text.
pub proof fn lemma_record_count_of(re: Regex, lines: Seq<LineView>)
    requires
        lines.len() > 0,
    ensures
        records_of(re, lines).len() == 1 + count_boundaries(
            marks_of(re, lines),
            lines.len() as int,
        ) + count_orphans(marks_of(re, lines), lines.len() as int),
{
    lemma_record_count(lines, marks_of(re, lines), lines.len() as int);
}

/// The records of the first `n` lines divide those lines among them: the
/// first record begins with the first line, each record begins where the
/// one before it ended, the last ends with the last line, every record is
/// numbered by its place, and its text is the text of its lines.
pub open spec fn covers(
    records: Seq<RecordView>,
    texts: Seq<Seq<u8>>,
    first: nat,
    n: int,
) -> bool {
    &&& records.len() > 0
    &&& records[0].first_line == first
    &&& records.last().last_line == first + n - 1
    &&& forall|k: int|
        0 <= k < records.len() ==> {
            &&& (#[trigger] records[k]).record_num == k + 1
            &&& first <= records[k].first_line <= records[k].last_line < first + n
            &&& records[k].text == concat(
                texts.subrange(
                    records[k].first_line - first,
                    records[k].last_line - first + 1,
                ),
            )
        }
    &&& forall|k: int|
        0 <= k < records.len() - 1 ==> (#[trigger] records[k + 1]).first_line
            == records[k].last_line + 1
}

/// Records lose nothing and add nothing: the text of a record is the text
/// of the lines from its first to its last, as they were read, and the
/// records follow each other without a gap.
pub proof fn lemma_records_cover(texts: Seq<Seq<u8>>, marks: Seq<bool>, first: nat, n: int)
    requires
        1 <= n <= texts.len(),
    ensures
        covers(grouped_upto(numbered(texts, first), marks, n), texts, first, n),
    decreases n,
{
    let lines = numbered(texts, first);
    let records = grouped_upto(lines, marks, n);
    let line = lines[n - 1];
    if n == 1 {
        assert(grouped_upto(lines, marks, 0).len() == 0);
        assert(texts.subrange(0, 1).drop_last() =~= Seq::<Seq<u8>>::empty());
        assert(concat(texts.subrange(0, 1).drop_last()) =~= Seq::<u8>::empty());
        assert(concat(texts.subrange(0, 1)) =~= texts[0]);
    } else {
        lemma_records_cover(texts, marks, first, n - 1);
        let before = grouped_upto(lines, marks, n - 1);
        if begins(marks, n - 1) {
            assert(texts.subrange(n - 1, n).drop_last() =~= Seq::<Seq<u8>>::empty());
            assert(concat(texts.subrange(n - 1, n).drop_last()) =~= Seq::<u8>::empty());
            assert(concat(texts.subrange(n - 1, n)) =~= texts[n - 1]);
            assert forall|k: int| 0 <= k < records.len() - 1 implies (#[trigger] records[k
                + 1]).first_line == records[k].last_line + 1 by {
                if k + 1 < before.len() {
                    assert(records[k + 1] == before[k + 1]);
                }
            }
        } else {
            let last = before.last();
            let a = last.first_line - first;
            assert(texts.subrange(a, n).drop_last() =~= texts.subrange(a, n - 1));
            assert forall|k: int| 0 <= k < records.len() - 1 implies (#[trigger] records[k
                + 1]).first_line == records[k].last_line + 1 by {
                assert(records[k] == before[k]);
                assert(before[k + 1].first_line == before[k].last_line + 1);
            }
        }
    }
}

/// The format that adds nothing: no file name, no line number, no colour.
pub open spec fn bare() -> Format {
    Format { capabilities: None, filenames: false, line_numbers: false }
}

/// With nothing added, the lines of a text from any line start on are
/// written as they stand.
pub proof fn lemma_bare_rendering(
    name: Seq<u8>,
    text: Seq<u8>,
    spans: Seq<(usize, usize)>,
    first_line: nat,
    from: int,
    index: nat,
)
    requires
        0 <= from <= text.len(),
    ensures
        rendered_from(bare(), name, text, spans, first_line, from, index) == text.subrange(
            from,
            text.len() as int,
        ),
    decreases text.len() - from,
{
    if from < text.len() {
        let end = line_end(text, from);
        lemma_line_end_bounds(text, from);
        lemma_bare_rendering(name, text, spans, first_line, end, index + 1);
        assert(prefix(bare(), name, index, first_line + index) =~= Seq::<u8>::empty());
        assert(rendered_from(bare(), name, text, spans, first_line, from, index) =~= text.subrange(
            from,
            text.len() as int,
        ));
    } else {
        assert(text.subrange(from, text.len() as int) =~= Seq::<u8>::empty());
    }
}

/// The lines of a text, joined, are the text.
pub proof fn lemma_split_joins(s: Seq<u8>, from: int)
    requires
        0 <= from <= s.len(),
    ensures
        concat(split_from(s, from)) == s.subrange(from, s.len() as int),
    decreases s.len() - from,
{
    if from < s.len() {
        let end = line_end(s, from);
        lemma_line_end_bounds(s, from);
        lemma_split_joins(s, end);
        lemma_concat_front(s.subrange(from, end), split_from(s, end));
        assert(s.subrange(from, end) + s.subrange(end, s.len() as int) =~= s.subrange(
            from,
            s.len() as int,
        ));
    } else {
        assert(s.subrange(from, s.len() as int) =~= Seq::<u8>::empty());
    }
}

/// Joining with a piece in front puts that piece in front.
pub proof fn lemma_concat_front(head: Seq<u8>, rest: Seq<Seq<u8>>)
    ensures
        concat(seq![head] + rest) == head + concat(rest),
    decreases rest.len(),
{
    let all = seq![head] + rest;
    if rest.len() == 0 {
        assert(all.drop_last() =~= Seq::<Seq<u8>>::empty());
        assert(concat(all.drop_last()) =~= Seq::<u8>::empty());
        assert(concat(rest) =~= Seq::<u8>::empty());
        assert(concat(all) =~= head + concat(rest));
    } else {
        lemma_concat_front(head, rest.drop_last());
        assert(all.drop_last() =~= seq![head] + rest.drop_last());
        assert(concat(all) =~= head + concat(rest));
    }
}

/// A search without colour gives the same output every time: what is
/// written for a file depends on the search, on what the writer was asked
/// to add, on the name and on the lines, and on nothing else.
pub proof fn lemma_rerun_identical(
    handler: Handler,
    first: Format,
    second: Format,
    name: Seq<u8>,
    lines: Seq<LineView>,
)
    requires
        first.capabilities is None,
        second.capabilities is None,
        first.filenames == second.filenames,
        first.line_numbers == second.line_numbers,
    ensures
        handler.file_output(first, name, lines) == handler.file_output(second, name, lines),
{
}

/// An empty input has no records and no match; all that is written for
/// it is the count of zero, in counting mode.
pub proof fn lemma_empty_input(handler: Handler, format: Format, name: Seq<u8>)
    ensures
        split_lines(Seq::<u8>::empty()) == Seq::<Seq<u8>>::empty(),
        records_of(handler.log_pattern, Seq::<LineView>::empty()) == Seq::<RecordView>::empty(),
        exit_for(handler.file_count(Seq::<LineView>::empty())) == Exit::NoMatch,
        handler.file_output(format, name, Seq::<LineView>::empty()) == if handler.counts {
            count_line(format, name, 0)
        } else {
            Seq::<u8>::empty()
        },
{
    let records = records_of(handler.log_pattern, Seq::<LineView>::empty());
    assert(records =~= Seq::<RecordView>::empty());
    assert(handler.output(format, name, records) =~= Seq::<u8>::empty());
    assert(handler.file_output(format, name, Seq::<LineView>::empty()) =~= if handler.counts {
        count_line(format, name, 0)
    } else {
        Seq::<u8>::empty()
    });
}

/// With a maximum of zero no record is selected, whatever the input:
/// there is no match, no record is written, and the reading has stopped
/// before the first line.
pub proof fn lemma_max_count_zero(
    handler: Handler,
    format: Format,
    name: Seq<u8>,
    lines: Seq<LineView>,
)
    requires
        handler.max_count == Some(0usize),
    ensures
        handler.initial_phase() == Phase::Stopped,
        exit_for(handler.file_count(lines)) == Exit::NoMatch,
        handler.output(format, name, records_of(handler.log_pattern, lines)) == Seq::<u8>::empty(),
{
    let records = records_of(handler.log_pattern, lines);
    lemma_stopped_absorbs(handler, format, name, records, 0, records.len() as int);
}

/// A stretch of output, and whether the writer added it or took it from
/// the record.
pub struct Piece {
    pub bytes: Seq<u8>,
    pub added: bool,
}

/// A stretch that the writer adds.
pub open spec fn added(bytes: Seq<u8>) -> Seq<Piece> {
    seq![Piece { bytes, added: true }]
}

/// A stretch taken from the record.
pub open spec fn kept(bytes: Seq<u8>) -> Seq<Piece> {
    seq![Piece { bytes, added: false }]
}

/// The pieces joined end to end; with `with_added` unset, those that the
/// writer added are left out.
pub open spec fn joined(pieces: Seq<Piece>, with_added: bool) -> Seq<u8>
    decreases pieces.len(),
{
    if pieces.len() == 0 {
        Seq::empty()
    } else if with_added || !pieces.last().added {
        joined(pieces.drop_last(), with_added) + pieces.last().bytes
    } else {
        joined(pieces.drop_last(), with_added)
    }
}

/// The pieces that [`painted`](crate::write::painted) is made of.
pub open spec fn painted_pieces(
    text: Seq<u8>,
    spans: Seq<(usize, usize)>,
    k: int,
    lo: int,
    hi: int,
    on: Seq<u8>,
    off: Seq<u8>,
) -> Seq<Piece>
    decreases spans.len() - k,
{
    if k < 0 || k >= spans.len() {
        kept(text.subrange(lo, hi))
    } else {
        let start = later(spans[k].0 as int, lo);
        let end = earlier(spans[k].1 as int, hi);
        if start < end {
            kept(text.subrange(lo, start)) + added(on) + kept(text.subrange(start, end)) + added(
                off,
            ) + painted_pieces(text, spans, k + 1, end, hi, on, off)
        } else {
            painted_pieces(text, spans, k + 1, lo, hi, on, off)
        }
    }
}

/// The pieces that a written line is made of, its annotations left aside.
pub open spec fn body_pieces(
    format: Format,
    text: Seq<u8>,
    spans: Seq<(usize, usize)>,
    from: int,
    end: int,
) -> Seq<Piece> {
    match format.slot(Slot::MatchText) {
        Some(style) => painted_pieces(
            text,
            spans,
            0,
            from,
            content_end(text, from, end),
            style_on(style),
            style_off(style),
        ) + kept(text.subrange(content_end(text, from, end), end)),
        None => kept(text.subrange(from, end)),
    }
}

/// The pieces that the written lines of a text are made of, from the line
/// at `from` on.
pub open spec fn rendered_pieces(
    format: Format,
    name: Seq<u8>,
    text: Seq<u8>,
    spans: Seq<(usize, usize)>,
    first_line: nat,
    from: int,
    index: nat,
) -> Seq<Piece>
    decreases text.len() - from,
    when 0 <= from
    via rendered_pieces_decreases
{
    if from >= text.len() {
        Seq::empty()
    } else {
        added(prefix(format, name, index, first_line + index)) + body_pieces(
            format,
            text,
            spans,
            from,
            line_end(text, from),
        ) + rendered_pieces(format, name, text, spans, first_line, line_end(text, from), index + 1)
    }
}

#[via_fn]
proof fn rendered_pieces_decreases(
    format: Format,
    name: Seq<u8>,
    text: Seq<u8>,
    spans: Seq<(usize, usize)>,
    first_line: nat,
    from: int,
    index: nat,
) {
    if from < text.len() {
        lemma_line_end_bounds(text, from);
    }
}

/// Joining two runs of pieces joins what each of them joins to.
pub proof fn lemma_joined_concat(a: Seq<Piece>, b: Seq<Piece>, with_added: bool)
    ensures
        joined(a + b, with_added) == joined(a, with_added) + joined(b, with_added),
    decreases b.len(),
{
    if b.len() == 0 {
        assert(a + b =~= a);
        assert(joined(a, with_added) + joined(b, with_added) =~= joined(a, with_added));
    } else {
        lemma_joined_concat(a, b.drop_last(), with_added);
        assert((a + b).drop_last() =~= a + b.drop_last());
        assert(joined(a + b, with_added) =~= joined(a, with_added) + joined(b, with_added));
    }
}

/// One piece joins to itself, or to nothing if it was added and added
/// pieces are left out.
pub proof fn lemma_joined_one(bytes: Seq<u8>, is_added: bool, with_added: bool)
    ensures
        joined(seq![Piece { bytes, added: is_added }], with_added) == if with_added || !is_added {
            bytes
        } else {
            Seq::empty()
        },
{
    let one = seq![Piece { bytes, added: is_added }];
    assert(one.drop_last() =~= Seq::<Piece>::empty());
    assert(joined(one.drop_last(), with_added) =~= Seq::<u8>::empty());
    assert(joined(one, with_added) =~= if with_added || !is_added {
        bytes
    } else {
        Seq::empty()
    });
}

/// A highlighted stretch is its pieces joined, and with the highlighting
/// left out it is the stretch itself.
pub proof fn lemma_painted_pieces(
    text: Seq<u8>,
    spans: Seq<(usize, usize)>,
    k: int,
    lo: int,
    hi: int,
    on: Seq<u8>,
    off: Seq<u8>,
)
    requires
        0 <= k,
        0 <= lo <= hi <= text.len(),
    ensures
        joined(painted_pieces(text, spans, k, lo, hi, on, off), true) == painted(
            text,
            spans,
            k,
            lo,
            hi,
            on,
            off,
        ),
        joined(painted_pieces(text, spans, k, lo, hi, on, off), false) == text.subrange(lo, hi),
    decreases spans.len() - k,
{
    if k >= spans.len() {
        lemma_joined_one(text.subrange(lo, hi), false, true);
        lemma_joined_one(text.subrange(lo, hi), false, false);
    } else {
        let start = later(spans[k].0 as int, lo);
        let end = earlier(spans[k].1 as int, hi);
        if start < end {
            let rest = painted_pieces(text, spans, k + 1, end, hi, on, off);
            let a = kept(text.subrange(lo, start));
            let b = added(on);
            let c = kept(text.subrange(start, end));
            let d = added(off);
            lemma_painted_pieces(text, spans, k + 1, end, hi, on, off);
            lemma_joined_one(text.subrange(lo, start), false, true);
            lemma_joined_one(text.subrange(lo, start), false, false);
            lemma_joined_one(on, true, true);
            lemma_joined_one(on, true, false);
            lemma_joined_one(text.subrange(start, end), false, true);
            lemma_joined_one(text.subrange(start, end), false, false);
            lemma_joined_one(off, true, true);
            lemma_joined_one(off, true, false);
            lemma_joined_concat(a, b, true);
            lemma_joined_concat(a, b, false);
            lemma_joined_concat(a + b, c, true);
            lemma_joined_concat(a + b, c, false);
            lemma_joined_concat(a + b + c, d, true);
            lemma_joined_concat(a + b + c, d, false);
            lemma_joined_concat(a + b + c + d, rest, true);
            lemma_joined_concat(a + b + c + d, rest, false);
            assert(text.subrange(lo, start) + Seq::<u8>::empty() + text.subrange(start, end)
                + Seq::<u8>::empty() + text.subrange(end, hi) =~= text.subrange(lo, hi));
        } else {
            lemma_painted_pieces(text, spans, k + 1, lo, hi, on, off);
        }
    }
}

/// What is written is the record's text with annotations put in, and
/// nothing else: the lines as written are their pieces joined, and the
/// same pieces without those that the writer added, which are the file
/// names, the line numbers, the separators and the styles, are the text
/// as it was read.
pub proof fn lemma_rendered_pieces(
    format: Format,
    name: Seq<u8>,
    text: Seq<u8>,
    spans: Seq<(usize, usize)>,
    first_line: nat,
    from: int,
    index: nat,
)
    requires
        0 <= from <= text.len(),
    ensures
        joined(rendered_pieces(format, name, text, spans, first_line, from, index), true)
            == rendered_from(format, name, text, spans, first_line, from, index),
        joined(rendered_pieces(format, name, text, spans, first_line, from, index), false)
            == text.subrange(from, text.len() as int),
    decreases text.len() - from,
{
    if from < text.len() {
        let end = line_end(text, from);
        lemma_line_end_bounds(text, from);
        let stop = content_end(text, from, end);
        let before = added(prefix(format, name, index, first_line + index));
        let line = body_pieces(format, text, spans, from, end);
        let rest = rendered_pieces(format, name, text, spans, first_line, end, index + 1);
        lemma_rendered_pieces(format, name, text, spans, first_line, end, index + 1);
        lemma_joined_one(prefix(format, name, index, first_line + index), true, true);
        lemma_joined_one(prefix(format, name, index, first_line + index), true, false);
        match format.slot(Slot::MatchText) {
            Some(style) => {
                let marked = painted_pieces(
                    text,
                    spans,
                    0,
                    from,
                    stop,
                    style_on(style),
                    style_off(style),
                );
                lemma_painted_pieces(text, spans, 0, from, stop, style_on(style), style_off(style));
                lemma_joined_one(text.subrange(stop, end), false, true);
                lemma_joined_one(text.subrange(stop, end), false, false);
                lemma_joined_concat(marked, kept(text.subrange(stop, end)), true);
                lemma_joined_concat(marked, kept(text.subrange(stop, end)), false);
                assert(text.subrange(from, stop) + text.subrange(stop, end) =~= text.subrange(
                    from,
                    end,
                ));
            },
            None => {
                lemma_joined_one(text.subrange(from, end), false, true);
                lemma_joined_one(text.subrange(from, end), false, false);
            },
        }
        lemma_joined_concat(before, line, true);
        lemma_joined_concat(before, line, false);
        lemma_joined_concat(before + line, rest, true);
        lemma_joined_concat(before + line, rest, false);
        assert(Seq::<u8>::empty() + text.subrange(from, end) + text.subrange(
            end,
            text.len() as int,
        ) =~= text.subrange(from, text.len() as int));
    } else {
        assert(text.subrange(from, text.len() as int) =~= Seq::<u8>::empty());
    }
}

/// Round trip. What is written for a record, with everything left out
/// that the writer added, is the text of the lines from the record's
/// first to its last, exactly as they were read, terminators included.
pub proof fn lemma_round_trip(
    re: Regex,
    format: Format,
    name: Seq<u8>,
    input: Seq<u8>,
    spans: Seq<(usize, usize)>,
    k: int,
)
    requires
        0 <= k < records_of(re, numbered(split_lines(input), 1)).len(),
    ensures
        ({
            let record = records_of(re, numbered(split_lines(input), 1))[k];
            let pieces = rendered_pieces(
                format,
                name,
                record.text,
                spans,
                record.first_line,
                0,
                0,
            );
            &&& 1 <= record.first_line <= record.last_line <= split_lines(input).len()
            &&& joined(pieces, true) == rendered(
                format,
                name,
                record.text,
                spans,
                record.first_line,
            )
            &&& joined(pieces, false) == concat(
                split_lines(input).subrange(record.first_line - 1, record.last_line as int),
            )
        }),
{
    let texts = split_lines(input);
    let lines = numbered(texts, 1);
    lemma_records_len(re, lines, lines.len() as int);
    lemma_records_cover(texts, marks_of(re, lines), 1, texts.len() as int);
    let record = records_of(re, lines)[k];
    lemma_rendered_pieces(format, name, record.text, spans, record.first_line, 0, 0);
    assert(record.text.subrange(0, record.text.len() as int) =~= record.text);
}

/// A piece of text that is one line: it is not empty, and it holds a
/// terminator at its end or nowhere.
pub open spec fn is_line(piece: Seq<u8>) -> bool {
    &&& piece.len() > 0
    &&& forall|k: int| 0 <= k < piece.len() - 1 ==> #[trigger] piece[k] != NEWLINE
}

/// A piece of text that ends in a terminator.
pub open spec fn is_terminated(piece: Seq<u8>) -> bool {
    piece.len() > 0 && piece.last() == NEWLINE
}

/// Lines of which only the last may lack its terminator.
pub open spec fn are_lines(pieces: Seq<Seq<u8>>) -> bool {
    &&& forall|i: int| 0 <= i < pieces.len() ==> is_line(#[trigger] pieces[i])
    &&& forall|i: int| 0 <= i < pieces.len() - 1 ==> is_terminated(#[trigger] pieces[i])
}

/// A line that is followed by more text ends where its terminator is, and
/// one that is followed by nothing ends with the text.
pub proof fn lemma_line_end_of_line(line: Seq<u8>, rest: Seq<u8>, from: int)
    requires
        is_line(line),
        is_terminated(line) || rest.len() == 0,
        0 <= from < line.len(),
    ensures
        line_end(line + rest, from) == line.len(),
    decreases line.len() - from,
{
    let s = line + rest;
    assert(s[from] == line[from]);
    if from + 1 < line.len() {
        lemma_line_end_of_line(line, rest, from + 1);
    } else if s[from] != NEWLINE {
        assert(s.len() == line.len());
        assert(line_end(s, from + 1) == s.len());
    }
}

/// Lines that are joined and split again are the same lines.
pub proof fn lemma_split_of_joined(pieces: Seq<Seq<u8>>)
    requires
        are_lines(pieces),
    ensures
        split_lines(concat(pieces)) == pieces,
    decreases pieces.len(),
{
    if pieces.len() == 0 {
        assert(concat(pieces) =~= Seq::<u8>::empty());
        assert(split_lines(concat(pieces)) =~= pieces);
    } else {
        let head = pieces[0];
        let rest = pieces.drop_first();
        assert(pieces =~= seq![head] + rest);
        lemma_concat_front(head, rest);
        let tail = concat(rest);
        let s = head + tail;
        assert(are_lines(rest)) by {
            assert forall|i: int| 0 <= i < rest.len() implies is_line(#[trigger] rest[i]) by {
                assert(rest[i] == pieces[i + 1]);
            }
            assert forall|i: int| 0 <= i < rest.len() - 1 implies is_terminated(
                #[trigger] rest[i],
            ) by {
                assert(rest[i] == pieces[i + 1]);
            }
        }
        lemma_split_of_joined(rest);
        if rest.len() == 0 {
            assert(tail =~= Seq::<u8>::empty());
        } else {
            assert(is_terminated(pieces[0]));
        }
        lemma_line_end_of_line(head, tail, 0);
        lemma_split_shift(s, head.len() as int, 0);
        assert(s.subrange(0, head.len() as int) =~= head);
        assert(s.subrange(head.len() as int, s.len() as int) =~= tail);
        assert(split_lines(s) =~= seq![head] + rest);
    }
}

/// The lines that the reader hands out are lines, and only the last of
/// them may lack its terminator.
pub proof fn lemma_split_gives_lines(s: Seq<u8>, from: int)
    requires
        0 <= from <= s.len(),
    ensures
        are_lines(split_from(s, from)),
    decreases s.len() - from,
{
    if from < s.len() {
        let end = line_end(s, from);
        let rest = split_from(s, end);
        let all = split_from(s, from);
        lemma_line_end_bounds(s, from);
        lemma_line_end_first_newline(s, from);
        lemma_split_gives_lines(s, end);
        assert(all =~= seq![s.subrange(from, end)] + rest);
        assert forall|i: int| 0 <= i < all.len() implies is_line(#[trigger] all[i]) by {
            if i > 0 {
                assert(all[i] == rest[i - 1]);
            }
        }
        assert forall|i: int| 0 <= i < all.len() - 1 implies is_terminated(#[trigger] all[i]) by {
            if i > 0 {
                assert(all[i] == rest[i - 1]);
            } else {
                assert(rest.len() > 0);
                assert(end < s.len());
            }
        }
    }
}

/// The lines of a record as it is written are the lines it was made of:
/// numbered from the record's first line, they end at its last.
pub proof fn lemma_record_lines(re: Regex, input: Seq<u8>, k: int)
    requires
        0 <= k < records_of(re, numbered(split_lines(input), 1)).len(),
    ensures
        ({
            let record = records_of(re, numbered(split_lines(input), 1))[k];
            &&& 1 <= record.first_line <= record.last_line <= split_lines(input).len()
            &&& split_lines(record.text) == split_lines(input).subrange(
                record.first_line - 1,
                record.last_line as int,
            )
            &&& split_lines(record.text).len() == record.last_line - record.first_line + 1
        }),
{
    let texts = split_lines(input);
    let lines = numbered(texts, 1);
    lemma_records_len(re, lines, lines.len() as int);
    lemma_records_cover(texts, marks_of(re, lines), 1, texts.len() as int);
    lemma_split_gives_lines(input, 0);
    let record = records_of(re, lines)[k];
    let own = texts.subrange(record.first_line - 1, record.last_line as int);
    assert(are_lines(own)) by {
        assert forall|i: int| 0 <= i < own.len() implies is_line(#[trigger] own[i]) by {
            assert(own[i] == texts[record.first_line - 1 + i]);
        }
        assert forall|i: int| 0 <= i < own.len() - 1 implies is_terminated(#[trigger] own[i]) by {
            assert(own[i] == texts[record.first_line - 1 + i]);
        }
    }
    lemma_split_of_joined(own);
}

/// The place of a phase in the course of a file.
pub open spec fn rank(phase: Phase) -> nat {
    match phase {
        Phase::BeforeStart => 0,
        Phase::Active => 1,
        Phase::Stopped => 2,
    }
}

/// The reading of a file only ever moves on: once records are searched
/// the file never goes back to waiting for its start, and once it has
/// stopped it stays stopped. The count never falls, and it rises by one
/// exactly when a record is selected.
pub proof fn lemma_phases_move_on(handler: Handler, before: Progress, record: RecordView)
    ensures
        rank(before.phase) <= rank(handler.advance(before, record).phase),
        before.count <= handler.advance(before, record).count <= before.count + 1,
        handler.advance(before, record).count == before.count + 1 <==> handler.judge(
            before.phase,
            before.count,
            record.text,
        ).1 == Outcome::Selected,
        handler.judge(before.phase, before.count, record.text).1 == Outcome::Selected
            ==> before.phase != Phase::Stopped && handler.selects(record.text),
{
}

} // verus!
