//! The selection engine: which records of a file are selected, and when to
//! stop reading it.
//!
//! The records of a file are searched from the first that matches the
//! start pattern, or from the first of all if there is none; that record
//! is searched like any other. The search of the file ends for good at
//! the first record after that which matches the end pattern, a record
//! that is not itself searched, or when the maximum number of records has
//! been selected. With a maximum of zero it ends before the first record.

use crate::capabilities::Slot;
use crate::handler::{optional_accepts, Handler};
use crate::lines::LineView;
use crate::pattern::{is_match, regex_accepts, regex_spans};
use crate::records::{
    lemma_records_len, lemma_records_prefix, lemma_records_push, records_of, records_upto,
    starts_record, RecordView,
};
use crate::write::{count_line, rendered, Format};
use regex_automata::meta::Regex;
use vstd::prelude::*;
use vstd::string::*;

verus! {

/// Where the reading of a file stands.
#[derive(Debug, PartialEq, Eq, Structural, Clone, Copy)]
pub enum Phase {
    /// A start pattern is set and no record has matched it yet.
    BeforeStart,
    /// Records are being searched.
    Active,
    /// Nothing more of the file is read.
    Stopped,
}

/// What became of a record.
#[derive(Debug, PartialEq, Eq, Structural, Clone, Copy)]
pub enum Outcome {
    /// It was passed over unsearched.
    Skipped,
    /// It was searched and selected.
    Selected,
    /// It was searched and not selected.
    Rejected,
}

/// How far a file has come: the phase of its reading and the number of
/// records selected.
pub struct Progress {
    pub phase: Phase,
    pub count: nat,
}

/// The records that are complete among those formed so far: all but the
/// last, which the next line may still extend.
pub open spec fn completed(records: Seq<RecordView>) -> Seq<RecordView> {
    if records.len() == 0 {
        records
    } else {
        records.drop_last()
    }
}

impl Handler {
    /// The phase in which a file starts.
    pub open spec fn initial_phase(&self) -> Phase {
        if self.max_count == Some(0usize) {
            Phase::Stopped
        } else if self.start is Some {
            Phase::BeforeStart
        } else {
            Phase::Active
        }
    }

    /// Whether a searched record is selected: it matches, or with the
    /// sense inverted it does not.
    pub open spec fn selects(&self, text: Seq<u8>) -> bool {
        self.invert_match != regex_accepts(self.pattern_set, text)
    }

    /// What becomes of a record that arrives while records are searched,
    /// `count` records having been selected before it. `ends` says whether
    /// the record matches the end pattern and `matches` whether it matches
    /// a search pattern.
    pub open spec fn verdict_active(&self, count: nat, ends: bool, matches: bool) -> (
        Phase,
        Outcome,
    ) {
        if ends {
            (Phase::Stopped, Outcome::Skipped)
        } else if self.invert_match != matches {
            if self.max_reached(count + 1) {
                (Phase::Stopped, Outcome::Selected)
            } else {
                (Phase::Active, Outcome::Selected)
            }
        } else {
            (Phase::Active, Outcome::Rejected)
        }
    }

    /// What becomes of a record that arrives in the given phase, and the
    /// phase after it. `starts`, `ends` and `matches` say whether the
    /// record matches the start pattern, the end pattern and a search
    /// pattern.
    pub open spec fn verdict(
        &self,
        phase: Phase,
        count: nat,
        starts: bool,
        ends: bool,
        matches: bool,
    ) -> (Phase, Outcome) {
        match phase {
            Phase::Stopped => (Phase::Stopped, Outcome::Skipped),
            Phase::BeforeStart => if starts {
                self.verdict_active(count, ends, matches)
            } else {
                (Phase::BeforeStart, Outcome::Skipped)
            },
            Phase::Active => self.verdict_active(count, ends, matches),
        }
    }

    /// What becomes of a record with the given text that arrives in the
    /// given phase, and the phase after it.
    pub open spec fn judge(&self, phase: Phase, count: nat, text: Seq<u8>) -> (Phase, Outcome) {
        self.verdict(
            phase,
            count,
            optional_accepts(self.start, text),
            optional_accepts(self.end, text),
            regex_accepts(self.pattern_set, text),
        )
    }

    /// The progress after one more record.
    pub open spec fn advance(&self, before: Progress, record: RecordView) -> Progress {
        let (phase, outcome) = self.judge(before.phase, before.count, record.text);
        Progress {
            phase,
            count: if outcome == Outcome::Selected {
                before.count + 1
            } else {
                before.count
            },
        }
    }

    /// The spans to highlight in a record: its matches, where matches have
    /// a style and the sense is not inverted.
    pub open spec fn highlights(&self, format: Format, text: Seq<u8>) -> Seq<(usize, usize)> {
        if !self.invert_match && format.slot(Slot::MatchText) is Some {
            regex_spans(self.pattern_set, text)
        } else {
            Seq::empty()
        }
    }

    /// What is written for a record: the record, if it is selected and
    /// the search neither counts nor keeps quiet.
    pub open spec fn emitted(
        &self,
        format: Format,
        name: Seq<u8>,
        record: RecordView,
        outcome: Outcome,
    ) -> Seq<u8> {
        if outcome == Outcome::Selected && !self.counts && !self.quiet {
            rendered(
                format,
                name,
                record.text,
                self.highlights(format, record.text),
                record.first_line,
            )
        } else {
            Seq::empty()
        }
    }

    /// The progress after the first `n` of the records.
    pub open spec fn progress_upto(&self, records: Seq<RecordView>, n: int) -> Progress
        decreases n,
    {
        if n <= 0 {
            Progress { phase: self.initial_phase(), count: 0 }
        } else {
            self.advance(self.progress_upto(records, n - 1), records[n - 1])
        }
    }

    /// What is written for the first `n` of the records.
    pub open spec fn output_upto(
        &self,
        format: Format,
        name: Seq<u8>,
        records: Seq<RecordView>,
        n: int,
    ) -> Seq<u8>
        decreases n,
    {
        if n <= 0 {
            Seq::empty()
        } else {
            let before = self.progress_upto(records, n - 1);
            self.output_upto(format, name, records, n - 1) + self.emitted(
                format,
                name,
                records[n - 1],
                self.judge(before.phase, before.count, records[n - 1].text).1,
            )
        }
    }

    /// The progress after all the records.
    pub open spec fn progress(&self, records: Seq<RecordView>) -> Progress {
        self.progress_upto(records, records.len() as int)
    }

    /// What is written for all the records.
    pub open spec fn output(&self, format: Format, name: Seq<u8>, records: Seq<RecordView>) -> Seq<
        u8,
    > {
        self.output_upto(format, name, records, records.len() as int)
    }

    /// The number of records selected in a file of the given lines.
    pub open spec fn file_count(&self, lines: Seq<LineView>) -> nat {
        self.progress(records_of(self.log_pattern, lines)).count
    }

    /// What is written for a file of the given lines: the selected
    /// records, or nothing in quiet mode; in counting mode, the count.
    pub open spec fn file_output(&self, format: Format, name: Seq<u8>, lines: Seq<LineView>) -> Seq<
        u8,
    > {
        let records = records_of(self.log_pattern, lines);
        self.output(format, name, records) + if self.counts {
            count_line(format, name, self.progress(records).count)
        } else {
            Seq::empty()
        }
    }

    /// Whether `line`, arriving after the lines `fed`, completes a record:
    /// it does where it starts one and is not the first line.
    pub open spec fn completes(&self, fed: Seq<LineView>, line: LineView) -> bool {
        fed.len() > 0 && starts_record(self.log_pattern, fed.push(line), fed.len() as int)
    }

    /// The progress once `line` has arrived after the lines `fed`: that of
    /// the complete records, with the one that the line completes, if any.
    pub open spec fn step_progress(&self, fed: Seq<LineView>, line: LineView) -> Progress {
        let records = records_of(self.log_pattern, fed);
        let before = self.progress(completed(records));
        if self.completes(fed, line) {
            self.advance(before, records.last())
        } else {
            before
        }
    }

    /// What is written when `line` arrives after the lines `fed`: the
    /// record that it completes, if it completes one and that one is
    /// selected.
    pub open spec fn step_output(
        &self,
        format: Format,
        name: Seq<u8>,
        fed: Seq<LineView>,
        line: LineView,
    ) -> Seq<u8> {
        let records = records_of(self.log_pattern, fed);
        let before = self.progress(completed(records));
        if self.completes(fed, line) {
            self.emitted(
                format,
                name,
                records.last(),
                self.judge(before.phase, before.count, records.last().text).1,
            )
        } else {
            Seq::empty()
        }
    }

    /// What is written when the input ends after the lines `fed`: the
    /// last record, if it is selected, and the count in counting mode.
    pub open spec fn final_output(&self, format: Format, name: Seq<u8>, fed: Seq<LineView>) -> Seq<
        u8,
    > {
        let records = records_of(self.log_pattern, fed);
        let before = self.progress(completed(records));
        let last = if fed.len() > 0 {
            self.emitted(
                format,
                name,
                records.last(),
                self.judge(before.phase, before.count, records.last().text).1,
            )
        } else {
            Seq::empty()
        };
        last + if self.counts {
            count_line(format, name, self.progress(records).count)
        } else {
            Seq::empty()
        }
    }

    /// Decides what becomes of a record that arrives in `phase` after
    /// `count` selected records, and the phase after it. `starts`, `ends`
    /// and `matches` say whether the record matches the start pattern,
    /// the end pattern and a search pattern.
    pub fn decide(
        &self,
        phase: Phase,
        count: usize,
        starts: bool,
        ends: bool,
        matches: bool,
    ) -> (verdict: (Phase, Outcome))
        ensures
            verdict == self.verdict(phase, count as nat, starts, ends, matches),
    {
        let open = match phase {
            Phase::Stopped => false,
            Phase::BeforeStart => starts,
            Phase::Active => true,
        };
        if !open {
            (phase, Outcome::Skipped)
        } else if ends {
            (Phase::Stopped, Outcome::Skipped)
        } else if self.invert_match != matches {
            let full = self.quiet || match self.max_count {
                Some(max) => max == 0 || count >= max - 1,
                None => false,
            };
            if full {
                (Phase::Stopped, Outcome::Selected)
            } else {
                (Phase::Active, Outcome::Selected)
            }
        } else {
            (Phase::Active, Outcome::Rejected)
        }
    }

    /// Tries the record's text against the patterns that its fate depends
    /// on, and decides what becomes of it: against the start pattern
    /// before the start, then against the end pattern, then against the
    /// search patterns.
    pub fn judge_record(&self, phase: Phase, count: usize, text: &str) -> (verdict: (
        Phase,
        Outcome,
    ))
        ensures
            verdict == self.judge(phase, count as nat, text.spec_bytes()),
    {
        let starts = match phase {
            Phase::BeforeStart => self.is_start(text),
            _ => false,
        };
        let open = match phase {
            Phase::Stopped => false,
            Phase::BeforeStart => starts,
            Phase::Active => true,
        };
        let ends = open && self.is_end(text);
        let matches = open && !ends && is_match(&self.pattern_set, text);
        self.decide(phase, count, starts, ends, matches)
    }
}

/// Records that agree up to `n` fare alike up to `n`.
pub proof fn lemma_progress_prefix(
    handler: Handler,
    format: Format,
    name: Seq<u8>,
    a: Seq<RecordView>,
    b: Seq<RecordView>,
    n: int,
)
    requires
        n <= a.len(),
        n <= b.len(),
        forall|i: int| 0 <= i < n ==> a[i] == b[i],
    ensures
        handler.progress_upto(a, n) == handler.progress_upto(b, n),
        handler.output_upto(format, name, a, n) == handler.output_upto(format, name, b, n),
    decreases n,
{
    if n > 0 {
        lemma_progress_prefix(handler, format, name, a, b, n - 1);
    }
}

/// Once the reading has stopped nothing changes any more: no record is
/// selected and nothing is written.
pub proof fn lemma_stopped_absorbs(
    handler: Handler,
    format: Format,
    name: Seq<u8>,
    records: Seq<RecordView>,
    k: int,
    m: int,
)
    requires
        0 <= k <= m,
        handler.progress_upto(records, k).phase is Stopped,
    ensures
        handler.progress_upto(records, m) == handler.progress_upto(records, k),
        handler.output_upto(format, name, records, m) == handler.output_upto(
            format,
            name,
            records,
            k,
        ),
    decreases m - k,
{
    if k < m {
        lemma_stopped_absorbs(handler, format, name, records, k, m - 1);
    }
}

/// No more records are selected than there are.
pub proof fn lemma_count_bounded(handler: Handler, records: Seq<RecordView>, n: int)
    requires
        0 <= n,
    ensures
        handler.progress_upto(records, n).count <= n,
    decreases n,
{
    if n > 0 {
        lemma_count_bounded(handler, records, n - 1);
    }
}

/// The records that are complete after `n` lines stay as they are,
/// whatever lines follow.
pub proof fn lemma_completed_stay(
    re: Regex,
    lines: Seq<LineView>,
    n: int,
    m: int,
)
    requires
        0 <= n <= m,
    ensures
        completed(records_upto(re, lines, n)).len() <= completed(records_upto(re, lines, m)).len(),
        records_upto(re, lines, n).len() <= records_upto(re, lines, m).len(),
        forall|i: int|
            0 <= i < completed(records_upto(re, lines, n)).len() ==> records_upto(re, lines, m)[i]
                == #[trigger] records_upto(re, lines, n)[i],
    decreases m - n,
{
    if n < m {
        lemma_completed_stay(re, lines, n, m - 1);
        lemma_records_len(re, lines, m - 1);
        lemma_records_len(re, lines, n);
    }
}

/// A file whose reading has stopped after some of its lines is served as if
/// all of it had been read: the lines that follow change neither the
/// count nor the output.
pub proof fn lemma_early_stop(
    handler: Handler,
    format: Format,
    name: Seq<u8>,
    lines: Seq<LineView>,
    n: int,
)
    requires
        0 <= n <= lines.len(),
        handler.progress(
            completed(records_of(handler.log_pattern, lines.subrange(0, n))),
        ).phase is Stopped,
    ensures
        handler.progress(records_of(handler.log_pattern, lines)) == handler.progress(
            completed(records_of(handler.log_pattern, lines.subrange(0, n))),
        ),
        handler.output(format, name, records_of(handler.log_pattern, lines)) == handler.output(
            format,
            name,
            completed(records_of(handler.log_pattern, lines.subrange(0, n))),
        ),
{
    let re = handler.log_pattern;
    let fed = lines.subrange(0, n);
    let some = records_of(re, fed);
    let all = records_of(re, lines);
    let done = completed(some);
    lemma_records_prefix(re, fed, lines, n);
    lemma_completed_stay(re, lines, n, lines.len() as int);
    lemma_progress_prefix(handler, format, name, done, all, done.len() as int);
    lemma_stopped_absorbs(handler, format, name, all, done.len() as int, all.len() as int);
}

/// What a line adds to the output is what its arrival adds to the output
/// of the complete records.
pub proof fn lemma_step_output(
    handler: Handler,
    format: Format,
    name: Seq<u8>,
    fed: Seq<LineView>,
    line: LineView,
)
    ensures
        handler.output(
            format,
            name,
            completed(records_of(handler.log_pattern, fed.push(line))),
        ) == handler.output(format, name, completed(records_of(handler.log_pattern, fed)))
            + handler.step_output(format, name, fed, line),
{
    let re = handler.log_pattern;
    let before = records_of(re, fed);
    let after = records_of(re, fed.push(line));
    lemma_records_push(re, fed, line);
    lemma_records_len(re, fed, fed.len() as int);
    if fed.len() > 0 && starts_record(re, fed.push(line), fed.len() as int) {
        assert(completed(after) =~= before);
        lemma_progress_prefix(
            handler,
            format,
            name,
            completed(before),
            before,
            completed(before).len() as int,
        );
    } else {
        assert(completed(after) =~= completed(before));
        assert(handler.step_output(format, name, fed, line) =~= Seq::<u8>::empty());
        assert(handler.output(format, name, completed(before)) + Seq::<u8>::empty()
            =~= handler.output(format, name, completed(before)));
    }
}

/// What the end of the input adds to the output of the complete records
/// makes the output of the file.
pub proof fn lemma_final_output(
    handler: Handler,
    format: Format,
    name: Seq<u8>,
    fed: Seq<LineView>,
)
    ensures
        handler.file_output(format, name, fed) == handler.output(
            format,
            name,
            completed(records_of(handler.log_pattern, fed)),
        ) + handler.final_output(format, name, fed),
{
    let re = handler.log_pattern;
    let records = records_of(re, fed);
    lemma_records_len(re, fed, fed.len() as int);
    lemma_progress_prefix(
        handler,
        format,
        name,
        completed(records),
        records,
        completed(records).len() as int,
    );
    assert(handler.file_output(format, name, fed) =~= handler.output(
        format,
        name,
        completed(records),
    ) + handler.final_output(format, name, fed));
}

} // verus!
