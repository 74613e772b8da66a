//! A named text to search.

use crate::lines::{numbered, LineView, Lines};
use crate::records::{lemma_records_len, lemma_records_push, records_of, Record, Records};
use crate::select::completed;
use crate::text::split_lines;
use regex_automata::meta::Regex;
use vstd::prelude::*;
use vstd::string::*;

verus! {

/// A text and the name it is shown under.
#[derive(Clone, Copy)]
pub struct Source<'a> {
    pub filename: &'a str,
    pub text: &'a str,
}

impl<'a> Source<'a> {
    /// The lines of the text, numbered from 1.
    pub open spec fn lines_view(&self) -> Seq<LineView> {
        numbered(split_lines(self.text.spec_bytes()), 1)
    }

    /// The text `text` under the name `filename`.
    pub fn new(filename: &'a str, text: &'a str) -> (source: Source<'a>)
        ensures
            source.filename == filename,
            source.text == text,
    {
        Source { filename, text }
    }

    /// A reader at the start of the text.
    pub fn lines(&self) -> (lines: Lines<'a>)
        ensures
            lines.wf(),
            lines.count() == 0,
            lines.remaining() == split_lines(self.text.spec_bytes()),
    {
        Lines::new(self.text)
    }

    /// The records of the text, under the record-start pattern given.
    pub fn records(&self, log_pattern: &Regex) -> (records: Vec<Record>)
        ensures
            records@.len() == records_of(*log_pattern, self.lines_view()).len(),
            forall|i: int|
                0 <= i < records@.len() ==> (#[trigger] records@[i])@ == records_of(
                    *log_pattern,
                    self.lines_view(),
                )[i],
    {
        self.lines().records(log_pattern)
    }
}

impl<'a> Lines<'a> {
    /// The lines still to come, with their numbers.
    pub open spec fn ahead(&self) -> Seq<LineView> {
        numbered(self.remaining(), self.count() + 1)
    }

    /// The records that the lines still to come form, under the
    /// record-start pattern given.
    pub fn records(self, log_pattern: &Regex) -> (records: Vec<Record>)
        requires
            self.wf(),
        ensures
            records@.len() == records_of(*log_pattern, self.ahead()).len(),
            forall|i: int|
                0 <= i < records@.len() ==> (#[trigger] records@[i])@ == records_of(
                    *log_pattern,
                    self.ahead(),
                )[i],
    {
        let ghost all = self.ahead();
        let ghost texts = self.remaining();
        let ghost base = self.count();
        let mut lines = self;
        let mut segmenter = Records::new(log_pattern);
        let mut records: Vec<Record> = Vec::new();
        assert(completed(records_of(*log_pattern, segmenter.consumed())) =~= Seq::empty());
        loop
            invariant
                lines.wf(),
                segmenter.wf(),
                segmenter.pattern() == *log_pattern,
                all == numbered(texts, base + 1),
                segmenter.consumed().len() <= all.len(),
                segmenter.consumed() == all.subrange(0, segmenter.consumed().len() as int),
                lines.count() == base + segmenter.consumed().len(),
                lines.remaining() == texts.subrange(
                    segmenter.consumed().len() as int,
                    texts.len() as int,
                ),
                records@.len() == completed(
                    records_of(*log_pattern, segmenter.consumed()),
                ).len(),
                forall|i: int|
                    0 <= i < records@.len() ==> (#[trigger] records@[i])@ == records_of(
                        *log_pattern,
                        segmenter.consumed(),
                    )[i],
            ensures
                segmenter.consumed() == all,
            decreases lines.remaining().len(),
        {
            let ghost fed = segmenter.consumed();
            match lines.next() {
                Some(line) => {
                    proof {
                        lemma_records_push(*log_pattern, fed, line@);
                        lemma_records_len(*log_pattern, fed, fed.len() as int);
                        assert(fed.push(line@) =~= all.subrange(0, fed.len() as int + 1));
                        assert(lines.remaining() =~= texts.subrange(
                            fed.len() as int + 1,
                            texts.len() as int,
                        ));
                    }
                    match segmenter.push(line) {
                        Some(record) => {
                            records.push(record);
                        },
                        None => {},
                    }
                },
                None => {
                    assert(fed =~= all);
                    break ;
                },
            }
        }
        proof {
            lemma_records_len(
                *log_pattern,
                segmenter.consumed(),
                segmenter.consumed().len() as int,
            );
        }
        match segmenter.finish() {
            Some(record) => {
                records.push(record);
            },
            None => {},
        }
        records
    }
}

} // verus!
