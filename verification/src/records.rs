//! The record segmenter: lines in, records out.
//!
//! A line opens a record when it matches the record-start pattern. Until the
//! first such line has been seen every line is a record of its own; after
//! it, a line that does not open a record continues the current one.

use crate::lines::{Line, LineView};
use crate::pattern::{is_match, regex_accepts};
use crate::text::lemma_encode_concat;
use regex_automata::meta::Regex;
use vstd::prelude::*;
use vstd::string::*;
use vstd::utf8::*;

verus! {

/// One or more consecutive lines taken as a unit.
#[derive(Debug, PartialEq, Eq)]
pub struct Record {
    /// The text of its lines, joined as they were read.
    pub text: String,
    /// Its place among the records of the input, counted from 1.
    pub record_num: usize,
    /// The number of its first line.
    pub first_line: usize,
    /// The number of its last line.
    pub last_line: usize,
}

/// What a [`Record`] stands for.
pub struct RecordView {
    pub text: Seq<u8>,
    pub record_num: nat,
    pub first_line: nat,
    pub last_line: nat,
}

impl View for Record {
    type V = RecordView;

    open spec fn view(&self) -> RecordView {
        RecordView {
            text: encode_utf8(self.text@),
            record_num: self.record_num as nat,
            first_line: self.first_line as nat,
            last_line: self.last_line as nat,
        }
    }
}

/// Some line before line `n` is marked as matching the record-start
/// pattern.
pub open spec fn marked_before(marks: Seq<bool>, n: int) -> bool {
    exists|j: int| 0 <= j < n && j < marks.len() && #[trigger] marks[j]
}

/// Line `i` is the first line of a record: it is the first line of all, it
/// is marked, or no line so far is.
pub open spec fn begins(marks: Seq<bool>, i: int) -> bool {
    i == 0 || marks[i] || !marked_before(marks, i)
}

/// The record that consists of `line` alone, as the record after `before`
/// others.
pub open spec fn opened(before: nat, line: LineView) -> RecordView {
    RecordView {
        text: line.text,
        record_num: before + 1,
        first_line: line.line_num,
        last_line: line.line_num,
    }
}

/// `record` with `line` added at its end.
pub open spec fn extended(record: RecordView, line: LineView) -> RecordView {
    RecordView { text: record.text + line.text, last_line: line.line_num, ..record }
}

/// The records that the first `n` lines form, `marks` telling for each
/// line whether it matches the record-start pattern.
pub open spec fn grouped_upto(lines: Seq<LineView>, marks: Seq<bool>, n: int) -> Seq<RecordView>
    decreases n,
{
    if n <= 0 {
        Seq::empty()
    } else {
        let before = grouped_upto(lines, marks, n - 1);
        if begins(marks, n - 1) {
            before.push(opened(before.len(), lines[n - 1]))
        } else {
            before.drop_last().push(extended(before.last(), lines[n - 1]))
        }
    }
}

/// The records that `lines` form, `marks` telling for each line whether it
/// matches the record-start pattern.
pub open spec fn grouped(lines: Seq<LineView>, marks: Seq<bool>) -> Seq<RecordView> {
    grouped_upto(lines, marks, lines.len() as int)
}

/// For each line, whether it matches the record-start pattern.
pub open spec fn marks_of(re: Regex, lines: Seq<LineView>) -> Seq<bool> {
    Seq::new(lines.len(), |i: int| regex_accepts(re, lines[i].text))
}

/// Line `i` is the first line of a record under the record-start pattern.
pub open spec fn starts_record(re: Regex, lines: Seq<LineView>, i: int) -> bool {
    begins(marks_of(re, lines), i)
}

/// The records that the first `n` lines form under the record-start
/// pattern.
pub open spec fn records_upto(re: Regex, lines: Seq<LineView>, n: int) -> Seq<RecordView> {
    grouped_upto(lines, marks_of(re, lines), n)
}

/// The records that `lines` form under the record-start pattern.
pub open spec fn records_of(re: Regex, lines: Seq<LineView>) -> Seq<RecordView> {
    grouped(lines, marks_of(re, lines))
}

/// Whether a line before `n` is marked depends on the marks before `n`
/// alone.
pub proof fn lemma_marked_prefix(a: Seq<bool>, b: Seq<bool>, n: int)
    requires
        n <= a.len(),
        n <= b.len(),
        forall|i: int| 0 <= i < n ==> a[i] == b[i],
    ensures
        marked_before(a, n) == marked_before(b, n),
{
    if marked_before(a, n) {
        let j = choose|j: int| 0 <= j < n && j < a.len() && #[trigger] a[j];
        assert(b[j]);
    }
    if marked_before(b, n) {
        let j = choose|j: int| 0 <= j < n && j < b.len() && #[trigger] b[j];
        assert(a[j]);
    }
}

/// The records of a prefix depend on that prefix alone.
pub proof fn lemma_grouped_prefix(
    lines: Seq<LineView>,
    marks: Seq<bool>,
    others: Seq<LineView>,
    other_marks: Seq<bool>,
    n: int,
)
    requires
        n <= lines.len(),
        n <= marks.len(),
        n <= others.len(),
        n <= other_marks.len(),
        forall|i: int| 0 <= i < n ==> lines[i] == others[i] && marks[i] == other_marks[i],
    ensures
        grouped_upto(lines, marks, n) == grouped_upto(others, other_marks, n),
    decreases n,
{
    if n > 0 {
        lemma_grouped_prefix(lines, marks, others, other_marks, n - 1);
        lemma_marked_prefix(marks, other_marks, n - 1);
    }
}

/// There are records as soon as there are lines, and never more records
/// than lines.
pub proof fn lemma_grouped_len(lines: Seq<LineView>, marks: Seq<bool>, n: int)
    requires
        0 <= n,
    ensures
        grouped_upto(lines, marks, n).len() <= n,
        n > 0 ==> grouped_upto(lines, marks, n).len() > 0,
    decreases n,
{
    if n > 0 {
        lemma_grouped_len(lines, marks, n - 1);
    }
}

/// What one more line does to the records: it opens a new one or extends
/// the last.
pub proof fn lemma_grouped_push(lines: Seq<LineView>, marks: Seq<bool>, line: LineView, mark: bool)
    requires
        marks.len() == lines.len(),
    ensures
        marked_before(marks.push(mark), lines.len() as int) == marked_before(
            marks,
            lines.len() as int,
        ),
        marked_before(marks.push(mark), lines.len() as int + 1) == (mark || marked_before(
            marks,
            lines.len() as int,
        )),
        begins(marks.push(mark), lines.len() as int) ==> grouped(
            lines.push(line),
            marks.push(mark),
        ) == grouped(lines, marks).push(opened(grouped(lines, marks).len(), line)),
        !begins(marks.push(mark), lines.len() as int) ==> grouped(
            lines.push(line),
            marks.push(mark),
        ) == grouped(lines, marks).drop_last().push(extended(grouped(lines, marks).last(), line)),
{
    let n = lines.len() as int;
    let longer = marks.push(mark);
    lemma_marked_prefix(marks, longer, n);
    lemma_grouped_prefix(lines, marks, lines.push(line), longer, n);
    assert(lines.push(line)[n] == line);
    if mark {
        assert(longer[n]);
    }
    if marked_before(marks, n) {
        let j = choose|j: int| 0 <= j < n && j < marks.len() && #[trigger] marks[j];
        assert(longer[j]);
    }
    if marked_before(longer, n + 1) && !mark {
        let j = choose|j: int| 0 <= j < n + 1 && j < longer.len() && #[trigger] longer[j];
        assert(marks[j]);
    }
}

/// The marks of a text with one more line are the marks of the text with
/// one more mark.
pub proof fn lemma_marks_push(re: Regex, lines: Seq<LineView>, line: LineView)
    ensures
        marks_of(re, lines.push(line)) == marks_of(re, lines).push(regex_accepts(re, line.text)),
{
    assert(marks_of(re, lines.push(line)) =~= marks_of(re, lines).push(
        regex_accepts(re, line.text),
    ));
}

/// The records of a prefix depend on that prefix alone.
pub proof fn lemma_records_prefix(re: Regex, a: Seq<LineView>, b: Seq<LineView>, n: int)
    requires
        n <= a.len(),
        n <= b.len(),
        forall|i: int| 0 <= i < n ==> a[i] == b[i],
    ensures
        records_upto(re, a, n) == records_upto(re, b, n),
{
    lemma_grouped_prefix(a, marks_of(re, a), b, marks_of(re, b), n);
}

/// There are records as soon as there are lines, and never more records
/// than lines.
pub proof fn lemma_records_len(re: Regex, lines: Seq<LineView>, n: int)
    requires
        0 <= n,
    ensures
        records_upto(re, lines, n).len() <= n,
        n > 0 ==> records_upto(re, lines, n).len() > 0,
{
    lemma_grouped_len(lines, marks_of(re, lines), n);
}

/// What one more line does to the records: it opens a new one or extends
/// the last.
pub proof fn lemma_records_push(re: Regex, lines: Seq<LineView>, line: LineView)
    ensures
        starts_record(re, lines.push(line), lines.len() as int) ==> records_of(
            re,
            lines.push(line),
        ) == records_of(re, lines).push(opened(records_of(re, lines).len(), line)),
        !starts_record(re, lines.push(line), lines.len() as int) ==> records_of(
            re,
            lines.push(line),
        ) == records_of(re, lines).drop_last().push(extended(records_of(re, lines).last(), line)),
{
    lemma_marks_push(re, lines, line);
    lemma_grouped_push(lines, marks_of(re, lines), line, regex_accepts(re, line.text));
}

impl Record {
    /// Adds `line` at the end of the record.
    pub fn push_line(&mut self, line: &Line)
        ensures
            final(self)@ == extended(old(self)@, line@),
    {
        proof {
            lemma_encode_concat(self.text@, line.text@);
        }
        self.text.append(line.text.as_str());
        self.last_line = line.line_num;
    }
}

/// The segmenter. Lines are pushed in one by one, each with the word on
/// whether it matches the record-start pattern; a record comes out when
/// the line that follows it has been seen, and the last one at the end.
pub struct Segmenter {
    before_first_record: bool,
    record_num: usize,
    current: Option<Record>,
    seen: Ghost<Seq<LineView>>,
    marks: Ghost<Seq<bool>>,
}

impl Segmenter {
    /// The lines pushed so far.
    pub closed spec fn lines(&self) -> Seq<LineView> {
        self.seen@
    }

    /// For each line pushed so far, whether it was said to match.
    pub closed spec fn marks(&self) -> Seq<bool> {
        self.marks@
    }

    /// The state agrees with the lines pushed so far.
    pub closed spec fn wf(&self) -> bool {
        let records = grouped(self.seen@, self.marks@);
        &&& self.marks@.len() == self.seen@.len()
        &&& self.before_first_record == !marked_before(self.marks@, self.seen@.len() as int)
        &&& self.record_num == records.len()
        &&& (self.current is None <==> self.seen@.len() == 0)
        &&& self.current matches Some(record) ==> record@ == records.last()
    }

    /// A segmenter that has seen no line yet.
    pub fn new() -> (segmenter: Segmenter)
        ensures
            segmenter.wf(),
            segmenter.lines() == Seq::<LineView>::empty(),
            segmenter.marks() == Seq::<bool>::empty(),
    {
        Segmenter {
            before_first_record: true,
            record_num: 0,
            current: None,
            seen: Ghost(Seq::empty()),
            marks: Ghost(Seq::empty()),
        }
    }

    /// The number of records that the lines pushed so far form, the one in
    /// progress included.
    pub fn record_count(&self) -> (count: usize)
        requires
            self.wf(),
        ensures
            count == grouped(self.lines(), self.marks()).len(),
            self.marks().len() == self.lines().len(),
    {
        self.record_num
    }

    /// Takes the next line; `opens` says whether it matches the
    /// record-start pattern. Where the line begins a record and another
    /// was in progress, that one is complete and is handed out.
    pub fn push(&mut self, line: Line, opens: bool) -> (done: Option<Record>)
        requires
            old(self).wf(),
            grouped(old(self).lines(), old(self).marks()).len() < usize::MAX,
        ensures
            final(self).wf(),
            final(self).lines() == old(self).lines().push(line@),
            final(self).marks() == old(self).marks().push(opens),
            done is Some <==> old(self).lines().len() > 0 && begins(
                final(self).marks(),
                old(self).lines().len() as int,
            ),
            done matches Some(record) ==> record@ == grouped(
                old(self).lines(),
                old(self).marks(),
            ).last(),
    {
        proof {
            lemma_grouped_push(self.seen@, self.marks@, line@, opens);
            lemma_grouped_len(self.seen@, self.marks@, self.seen@.len() as int);
        }
        if opens {
            self.before_first_record = false;
        }
        let fresh = opens || self.before_first_record;
        self.seen = Ghost(self.seen@.push(line@));
        self.marks = Ghost(self.marks@.push(opens));
        match self.current.take() {
            Some(mut record) if !fresh => {
                record.push_line(&line);
                self.current = Some(record);
                None
            },
            done => {
                self.record_num = self.record_num + 1;
                self.current = Some(
                    Record {
                        text: line.text,
                        record_num: self.record_num,
                        first_line: line.line_num,
                        last_line: line.line_num,
                    },
                );
                done
            },
        }
    }

    /// Ends the input and hands out the record in progress, if any.
    pub fn finish(self) -> (done: Option<Record>)
        requires
            self.wf(),
        ensures
            done is Some <==> self.lines().len() > 0,
            done matches Some(record) ==> record@ == grouped(self.lines(), self.marks()).last(),
    {
        self.current
    }
}

/// The segmenter with its record-start pattern: lines are pushed in one by
/// one and tried against the pattern.
pub struct Records<'a> {
    log_pattern: &'a Regex,
    segmenter: Segmenter,
}

impl<'a> Records<'a> {
    /// The record-start pattern.
    pub closed spec fn pattern(&self) -> Regex {
        *self.log_pattern
    }

    /// The lines pushed so far.
    pub closed spec fn consumed(&self) -> Seq<LineView> {
        self.segmenter.lines()
    }

    /// The state agrees with the lines pushed so far.
    pub closed spec fn wf(&self) -> bool {
        &&& self.segmenter.wf()
        &&& self.segmenter.marks() == marks_of(*self.log_pattern, self.segmenter.lines())
    }

    /// A segmenter that has seen no line yet.
    pub fn new(log_pattern: &'a Regex) -> (records: Records<'a>)
        ensures
            records.wf(),
            records.pattern() == *log_pattern,
            records.consumed() == Seq::<LineView>::empty(),
    {
        let records = Records { log_pattern, segmenter: Segmenter::new() };
        assert(records.segmenter.marks() =~= marks_of(*log_pattern, records.segmenter.lines()));
        records
    }

    /// The number of records that the lines pushed so far form, the one in
    /// progress included.
    pub fn record_count(&self) -> (count: usize)
        requires
            self.wf(),
        ensures
            count == records_of(self.pattern(), self.consumed()).len(),
    {
        self.segmenter.record_count()
    }

    /// Takes the next line. Where the line begins a record and another was
    /// in progress, that one is complete and is handed out.
    pub fn push(&mut self, line: Line) -> (done: Option<Record>)
        requires
            old(self).wf(),
            records_of(old(self).pattern(), old(self).consumed()).len() < usize::MAX,
        ensures
            final(self).wf(),
            final(self).pattern() == old(self).pattern(),
            final(self).consumed() == old(self).consumed().push(line@),
            done is Some <==> old(self).consumed().len() > 0 && starts_record(
                old(self).pattern(),
                final(self).consumed(),
                old(self).consumed().len() as int,
            ),
            done matches Some(record) ==> record@ == records_of(
                old(self).pattern(),
                old(self).consumed(),
            ).last(),
    {
        proof {
            lemma_marks_push(*self.log_pattern, self.segmenter.lines(), line@);
        }
        let opens = is_match(self.log_pattern, line.text.as_str());
        self.segmenter.push(line, opens)
    }

    /// Ends the input and hands out the record in progress, if any.
    pub fn finish(self) -> (done: Option<Record>)
        requires
            self.wf(),
        ensures
            done is Some <==> self.consumed().len() > 0,
            done matches Some(record) ==> record@ == records_of(
                self.pattern(),
                self.consumed(),
            ).last(),
    {
        self.segmenter.finish()
    }
}

} // verus!
