//! The annotated writer: selected records in, output bytes out.
//!
//! A record is written line by line. Each line can be preceded by the file
//! name and by its line number, each followed by a separator: a colon on
//! the first line of a record, a hyphen on the lines that continue it. With
//! colours on, the annotations are styled and the matches within the text
//! are highlighted. A count is written as a line of its own and never
//! carries a line number, whatever the writer was asked for.

use crate::capabilities::{
    default_on, render_off, render_on, reset, style_off, style_on, Capabilities, Slot,
};
use crate::records::Record;
use crate::text::{lemma_line_end_bounds, line_end, NEWLINE};
use crate::Exit;
use clap::builder::styling::Style;
use vstd::prelude::*;
use vstd::string::*;

verus! {

/// Which annotations the writer adds.
pub struct Format {
    /// The styles to use, or `None` to write without colour.
    pub capabilities: Option<Capabilities>,
    /// Whether each line is preceded by the file name.
    pub filenames: bool,
    /// Whether each line is preceded by its number.
    pub line_numbers: bool,
}

impl Format {
    /// The style of `slot`, if colours are on and the slot has one.
    pub open spec fn slot(&self, slot: Slot) -> Option<Style> {
        match self.capabilities {
            Some(caps) => caps.slot(slot),
            None => None,
        }
    }

    /// The style of `slot`, if colours are on and the slot has one.
    pub fn style(&self, slot: Slot) -> (style: Option<&Style>)
        ensures
            owned(style) == self.slot(slot),
    {
        match &self.capabilities {
            Some(caps) => match caps.style(slot) {
                Some(style) => Some(style),
                None => None,
            },
            None => None,
        }
    }
}

/// The style behind an optional reference.
pub open spec fn owned(style: Option<&Style>) -> Option<Style> {
    match style {
        Some(style) => Some(*style),
        None => None,
    }
}

/// `bytes` in the given style: switched on before, off after.
pub open spec fn styled(style: Option<Style>, bytes: Seq<u8>) -> Seq<u8> {
    match style {
        Some(style) => style_on(style) + bytes + style_off(style),
        None => bytes,
    }
}

/// The decimal digits of `n`.
pub open spec fn decimal(n: nat) -> Seq<u8>
    decreases n,
{
    if n < 10 {
        seq![(0x30 + n) as u8]
    } else {
        decimal(n / 10).push((0x30 + n % 10) as u8)
    }
}

/// The separator after the annotations of the line at `index` within its
/// record: a colon on the first line, a hyphen on the others.
pub open spec fn separator(index: nat) -> u8 {
    if index == 0 {
        0x3a
    } else {
        0x2d
    }
}

/// The annotations that precede a line.
pub open spec fn prefix(format: Format, name: Seq<u8>, index: nat, line_num: nat) -> Seq<u8> {
    let mark = styled(format.slot(Slot::Separator), seq![separator(index)]);
    let file = if format.filenames {
        styled(format.slot(Slot::Filename), name) + mark
    } else {
        Seq::empty()
    };
    let number = if format.line_numbers {
        styled(format.slot(Slot::LineNumber), decimal(line_num)) + mark
    } else {
        Seq::empty()
    };
    file + number
}

/// Where the content of the line `from..end` ends: before its terminator,
/// if it has one.
pub open spec fn content_end(text: Seq<u8>, from: int, end: int) -> int {
    if from < end && text[end - 1] == NEWLINE {
        end - 1
    } else {
        end
    }
}

/// The larger of two offsets.
pub open spec fn later(a: int, b: int) -> int {
    if a < b {
        b
    } else {
        a
    }
}

/// The smaller of two offsets.
pub open spec fn earlier(a: int, b: int) -> int {
    if a < b {
        a
    } else {
        b
    }
}

/// The bytes `lo..hi` of `text`, with the part of each span from span `k`
/// on that falls into that range wrapped in `on` and `off`. A span that
/// leaves nothing in the range is passed over.
pub open spec fn painted(
    text: Seq<u8>,
    spans: Seq<(usize, usize)>,
    k: int,
    lo: int,
    hi: int,
    on: Seq<u8>,
    off: Seq<u8>,
) -> Seq<u8>
    decreases spans.len() - k,
{
    if k < 0 || k >= spans.len() {
        text.subrange(lo, hi)
    } else {
        let start = later(spans[k].0 as int, lo);
        let end = earlier(spans[k].1 as int, hi);
        if start < end {
            text.subrange(lo, start) + on + text.subrange(start, end) + off + painted(
                text,
                spans,
                k + 1,
                end,
                hi,
                on,
                off,
            )
        } else {
            painted(text, spans, k + 1, lo, hi, on, off)
        }
    }
}

/// The line `from..end` of `text` as it is written: its content with the
/// matches highlighted where matches have a style, then its terminator.
pub open spec fn body(
    format: Format,
    text: Seq<u8>,
    spans: Seq<(usize, usize)>,
    from: int,
    end: int,
) -> Seq<u8> {
    match format.slot(Slot::MatchText) {
        Some(style) => painted(
            text,
            spans,
            0,
            from,
            content_end(text, from, end),
            style_on(style),
            style_off(style),
        ) + text.subrange(content_end(text, from, end), end),
        None => text.subrange(from, end),
    }
}

/// The lines of `text` from offset `from` on as they are written, the line
/// at `from` being line `index` of its record.
pub open spec fn rendered_from(
    format: Format,
    name: Seq<u8>,
    text: Seq<u8>,
    spans: Seq<(usize, usize)>,
    first_line: nat,
    from: int,
    index: nat,
) -> Seq<u8>
    decreases text.len() - from,
    when 0 <= from
    via rendered_from_decreases
{
    if from >= text.len() {
        Seq::empty()
    } else {
        prefix(format, name, index, first_line + index) + body(
            format,
            text,
            spans,
            from,
            line_end(text, from),
        ) + rendered_from(format, name, text, spans, first_line, line_end(text, from), index + 1)
    }
}

#[via_fn]
proof fn rendered_from_decreases(
    format: Format,
    name: Seq<u8>,
    text: Seq<u8>,
    spans: Seq<(usize, usize)>,
    first_line: nat,
    from: int,
    index: nat,
) {
    if from < text.len() {
        lemma_line_end_bounds(text, from);
    }
}

/// A record's text as it is written: every line with its annotations, the
/// lines numbered from `first_line` on.
pub open spec fn rendered(
    format: Format,
    name: Seq<u8>,
    text: Seq<u8>,
    spans: Seq<(usize, usize)>,
    first_line: nat,
) -> Seq<u8> {
    rendered_from(format, name, text, spans, first_line, 0, 0)
}

/// The line that reports a count: the file name and a colon if file names
/// are on, then the count and a terminator.
pub open spec fn count_line(format: Format, name: Seq<u8>, count: nat) -> Seq<u8> {
    let file = if format.filenames {
        styled(format.slot(Slot::Filename), name) + styled(
            format.slot(Slot::Separator),
            seq![separator(0)],
        )
    } else {
        Seq::empty()
    };
    file + decimal(count).push(NEWLINE)
}

/// Appends `bytes` to `buffer`.
fn put(buffer: &mut Vec<u8>, bytes: &[u8])
    ensures
        final(buffer)@ == old(buffer)@ + bytes@,
{
    buffer.extend_from_slice(bytes);
    assert(buffer@ =~= old(buffer)@ + bytes@);
}

/// Appends `bytes` to `buffer` in the given style.
fn put_styled(buffer: &mut Vec<u8>, style: Option<&Style>, bytes: &[u8])
    ensures
        final(buffer)@ == old(buffer)@ + styled(owned(style), bytes@),
{
    match style {
        Some(style) => {
            let on = render_on(style);
            let off = render_off(style);
            put(buffer, on.as_slice());
            put(buffer, bytes);
            put(buffer, off.as_slice());
            assert(buffer@ =~= old(buffer)@ + styled(Some(*style), bytes@));
        },
        None => {
            put(buffer, bytes);
        },
    }
}

/// Appends the decimal digits of `n` to `buffer`.
fn put_decimal(buffer: &mut Vec<u8>, n: u128)
    ensures
        final(buffer)@ == old(buffer)@ + decimal(n as nat),
    decreases n,
{
    if n >= 10 {
        put_decimal(buffer, n / 10);
    }
    let digit: u8 = 0x30 + (n % 10) as u8;
    buffer.push(digit);
    assert(buffer@ =~= old(buffer)@ + decimal(n as nat));
}

/// The decimal digits of `n`.
fn decimal_digits(n: u128) -> (digits: Vec<u8>)
    ensures
        digits@ == decimal(n as nat),
{
    let mut digits = Vec::new();
    put_decimal(&mut digits, n);
    assert(digits@ =~= decimal(n as nat));
    digits
}

/// Appends the bytes `lo..hi` of `text` to `buffer`, highlighting what the
/// spans cover of them: each stretch that a span has in common with the
/// range stands between `on` and `off`. Spans are taken in the order
/// given, and a span is cut to what the spans before it have left.
pub fn paint(
    buffer: &mut Vec<u8>,
    text: &[u8],
    spans: &Vec<(usize, usize)>,
    lo: usize,
    hi: usize,
    on: &[u8],
    off: &[u8],
)
    requires
        lo <= hi <= text@.len(),
    ensures
        final(buffer)@ == old(buffer)@ + painted(text@, spans@, 0, lo as int, hi as int, on@, off@),
{
    let ghost whole = painted(text@, spans@, 0, lo as int, hi as int, on@, off@);
    let mut at = lo;
    let mut k: usize = 0;
    while k < spans.len()
        invariant
            k <= spans.len(),
            lo <= at <= hi <= text@.len(),
            old(buffer)@ + whole == buffer@ + painted(
                text@,
                spans@,
                k as int,
                at as int,
                hi as int,
                on@,
                off@,
            ),
        decreases spans.len() - k,
    {
        let span = spans[k];
        let start = if span.0 < at {
            at
        } else {
            span.0
        };
        let end = if span.1 < hi {
            span.1
        } else {
            hi
        };
        let ghost before = buffer@;
        let ghost rest = painted(text@, spans@, k + 1, end as int, hi as int, on@, off@);
        if start < end {
            put(buffer, &text[at..start]);
            put(buffer, on);
            put(buffer, &text[start..end]);
            put(buffer, off);
            assert(buffer@ + rest =~= before + (text@.subrange(at as int, start as int) + on@
                + text@.subrange(start as int, end as int) + off@ + rest));
            at = end;
        }
        k += 1;
    }
    put(buffer, &text[at..hi]);
    assert(buffer@ =~= old(buffer)@ + whole);
}

/// The writer. What it writes gathers in a buffer until it is taken out.
pub struct LgrepWrite {
    /// The annotations to add.
    pub format: Format,
    /// The bytes written and not yet taken.
    pub buffer: Vec<u8>,
}

impl LgrepWrite {
    /// A writer with the default styles if `colorize` is set, and without
    /// colour otherwise.
    pub fn new(colorize: bool, filenames: bool, line_numbers: bool) -> (writer: LgrepWrite)
        ensures
            writer.format.filenames == filenames,
            writer.format.line_numbers == line_numbers,
            writer.format.capabilities is Some == colorize,
            colorize ==> forall|slot: Slot|
                (#[trigger] writer.format.slot(slot)) is Some && style_on(
                    writer.format.slot(slot)->0,
                ) == default_on(slot) && style_off(writer.format.slot(slot)->0) == reset(),
            writer.buffer@ == Seq::<u8>::empty(),
    {
        let capabilities = if colorize {
            Some(Capabilities::default())
        } else {
            None
        };
        let writer = LgrepWrite {
            format: Format { capabilities, filenames, line_numbers },
            buffer: Vec::new(),
        };
        assert(colorize ==> forall|slot: Slot|
            #[trigger] writer.format.slot(slot) == capabilities->0.slot(slot));
        writer
    }

    /// A writer with the given styles.
    pub fn with_capabilities(
        capabilities: Option<Capabilities>,
        filenames: bool,
        line_numbers: bool,
    ) -> (writer: LgrepWrite)
        ensures
            writer.format == (Format { capabilities, filenames, line_numbers }),
            writer.buffer@ == Seq::<u8>::empty(),
    {
        LgrepWrite { format: Format { capabilities, filenames, line_numbers }, buffer: Vec::new() }
    }

    /// Whether the writer highlights matches, and so has a use for their
    /// locations.
    pub fn needs_match_locations(&self) -> (needed: bool)
        ensures
            needed == self.format.slot(Slot::MatchText) is Some,
    {
        self.format.style(Slot::MatchText).is_some()
    }

    /// Writes the number of records selected in a file.
    pub fn write_count(&mut self, filename: &str, count: usize)
        ensures
            final(self).format == old(self).format,
            final(self).buffer@ == old(self).buffer@ + count_line(
                old(self).format,
                filename.spec_bytes(),
                count as nat,
            ),
    {
        if self.format.filenames {
            put_styled(&mut self.buffer, self.format.style(Slot::Filename), filename.as_bytes());
            let colon: [u8; 1] = [0x3a];
            put_styled(&mut self.buffer, self.format.style(Slot::Separator), colon.as_slice());
            assert(colon@ =~= seq![separator(0)]);
        }
        put_decimal(&mut self.buffer, count as u128);
        self.buffer.push(NEWLINE);
        assert(self.buffer@ =~= old(self).buffer@ + count_line(
            old(self).format,
            filename.spec_bytes(),
            count as nat,
        ));
    }

    /// Writes a record with the given spans of its text highlighted. The
    /// spans are byte ranges of the record's text, in ascending order. A
    /// span that crosses a line terminator is highlighted on either side of
    /// it, and a writer without a style for matches writes the record plain.
    pub fn write_record_with_matches(
        &mut self,
        filename: &str,
        record: &Record,
        spans: &Vec<(usize, usize)>,
    )
        ensures
            final(self).format == old(self).format,
            final(self).buffer@ == old(self).buffer@ + rendered(
                old(self).format,
                filename.spec_bytes(),
                record@.text,
                spans@,
                record@.first_line,
            ),
    {
        self.spew_internal(filename, record.text.as_str(), spans, record.first_line);
    }

    /// Writes a record without highlighting.
    pub fn write_record(&mut self, filename: &str, record: &Record)
        ensures
            final(self).format == old(self).format,
            final(self).buffer@ == old(self).buffer@ + rendered(
                old(self).format,
                filename.spec_bytes(),
                record@.text,
                Seq::empty(),
                record@.first_line,
            ),
    {
        let spans: Vec<(usize, usize)> = Vec::new();
        self.spew_internal(filename, record.text.as_str(), &spans, record.first_line);
    }

    /// Takes out what has been written, leaving the buffer empty.
    pub fn take(&mut self) -> (bytes: Vec<u8>)
        ensures
            bytes@ == old(self).buffer@,
            final(self).buffer@ == Seq::<u8>::empty(),
            final(self).format == old(self).format,
    {
        let mut bytes = Vec::new();
        core::mem::swap(&mut self.buffer, &mut bytes);
        bytes
    }

    /// Writes the annotations of the line `index` of a record.
    fn put_prefix(&mut self, name: &[u8], index: usize, line_num: u128)
        ensures
            final(self).format == old(self).format,
            final(self).buffer@ == old(self).buffer@ + prefix(
                old(self).format,
                name@,
                index as nat,
                line_num as nat,
            ),
    {
        let mark: [u8; 1] = if index == 0 {
            [0x3a]
        } else {
            [0x2d]
        };
        assert(mark@ =~= seq![separator(index as nat)]);
        if self.format.filenames {
            put_styled(&mut self.buffer, self.format.style(Slot::Filename), name);
            put_styled(&mut self.buffer, self.format.style(Slot::Separator), mark.as_slice());
        }
        if self.format.line_numbers {
            let digits = decimal_digits(line_num);
            put_styled(&mut self.buffer, self.format.style(Slot::LineNumber), digits.as_slice());
            put_styled(&mut self.buffer, self.format.style(Slot::Separator), mark.as_slice());
        }
        assert(self.buffer@ =~= old(self).buffer@ + prefix(
            old(self).format,
            name@,
            index as nat,
            line_num as nat,
        ));
    }

    /// Writes the line `from..end` of `text`.
    fn put_body(&mut self, text: &[u8], spans: &Vec<(usize, usize)>, from: usize, end: usize)
        requires
            from < end <= text@.len(),
        ensures
            final(self).format == old(self).format,
            final(self).buffer@ == old(self).buffer@ + body(
                old(self).format,
                text@,
                spans@,
                from as int,
                end as int,
            ),
    {
        match self.format.style(Slot::MatchText) {
            Some(style) => {
                let on = render_on(style);
                let off = render_off(style);
                let stop = if text[end - 1] == NEWLINE {
                    end - 1
                } else {
                    end
                };
                paint(&mut self.buffer, text, spans, from, stop, on.as_slice(), off.as_slice());
                put(&mut self.buffer, &text[stop..end]);
                assert(self.buffer@ =~= old(self).buffer@ + body(
                    old(self).format,
                    text@,
                    spans@,
                    from as int,
                    end as int,
                ));
            },
            None => {
                put(&mut self.buffer, &text[from..end]);
            },
        }
    }

    /// Writes `text` line by line, the first line being line `first_line`
    /// of its file.
    fn spew_internal(
        &mut self,
        filename: &str,
        text: &str,
        spans: &Vec<(usize, usize)>,
        first_line: usize,
    )
        ensures
            final(self).format == old(self).format,
            final(self).buffer@ == old(self).buffer@ + rendered(
                old(self).format,
                filename.spec_bytes(),
                text.spec_bytes(),
                spans@,
                first_line as nat,
            ),
    {
        let name = filename.as_bytes();
        let bytes = text.as_bytes();
        let n = bytes.len();
        let ghost whole = rendered(
            self.format,
            name@,
            bytes@,
            spans@,
            first_line as nat,
        );
        let mut from: usize = 0;
        let mut index: usize = 0;
        while from < n
            invariant
                n == bytes@.len(),
                index <= from <= n,
                self.format == old(self).format,
                old(self).buffer@ + whole == self.buffer@ + rendered_from(
                    self.format,
                    name@,
                    bytes@,
                    spans@,
                    first_line as nat,
                    from as int,
                    index as nat,
                ),
            decreases n - from,
        {
            let mut end = from;
            while end < n && bytes[end] != NEWLINE
                invariant
                    from <= end <= n,
                    n == bytes@.len(),
                    line_end(bytes@, from as int) == line_end(bytes@, end as int),
                decreases n - end,
            {
                end += 1;
            }
            if end < n {
                end += 1;
            }
            proof {
                lemma_line_end_bounds(bytes@, from as int);
            }
            let ghost before = self.buffer@;
            let ghost rest = rendered_from(
                self.format,
                name@,
                bytes@,
                spans@,
                first_line as nat,
                end as int,
                (index + 1) as nat,
            );
            self.put_prefix(name, index, first_line as u128 + index as u128);
            self.put_body(bytes, spans, from, end);
            assert(self.buffer@ + rest =~= before + (prefix(
                self.format,
                name@,
                index as nat,
                first_line as nat + index as nat,
            ) + body(self.format, bytes@, spans@, from as int, end as int) + rest));
            from = end;
            index += 1;
        }
        assert(self.buffer@ =~= old(self).buffer@ + whole);
    }
}

/// What became of an attempt to hand output on.
#[derive(Debug, PartialEq, Eq, Structural, Clone, Copy)]
pub enum Delivery {
    /// The output was written and flushed.
    Written,
    /// The reader at the other end has gone away.
    BrokenPipe,
    /// The write failed for another reason.
    Failed,
}

/// An output failure that ends the search with an error.
#[derive(Debug, PartialEq, Eq, Structural, Clone, Copy)]
pub struct WriteError;

/// What an attempt to hand output on means for the search: it goes on
/// after a successful write, stops quietly when nobody is listening any
/// more, and fails on any other error.
pub fn after_write(delivery: Delivery) -> (verdict: Result<Exit, WriteError>)
    ensures
        verdict == match delivery {
            Delivery::Written => Ok::<Exit, WriteError>(Exit::Match),
            Delivery::BrokenPipe => Ok(Exit::Terminate),
            Delivery::Failed => Err(WriteError),
        },
{
    match delivery {
        Delivery::Written => Ok(Exit::Match),
        Delivery::BrokenPipe => Ok(Exit::Terminate),
        Delivery::Failed => Err(WriteError),
    }
}

} // verus!
