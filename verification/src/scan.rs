//! The reading of one file, a line at a time.
//!
//! Whoever reads the file feeds its lines in one by one and hands on what
//! the writer holds after each. The search itself never reads or writes:
//! it is told of every line, and of what became of every write.

use crate::handler::Handler;
use crate::lines::{Line, LineView};
use crate::pattern::find_spans;
use crate::records::{lemma_records_len, lemma_records_push, records_of, Record, Records};
use crate::select::{
    completed, lemma_count_bounded, lemma_progress_prefix, Outcome, Phase, Progress,
};
use crate::write::{after_write, Delivery, LgrepWrite, WriteError};
use crate::{exit_for, Exit};
use vstd::prelude::*;
use vstd::string::*;
use vstd::utf8::*;

verus! {

/// The reading of one file: lines go in, and what is to be written for
/// them goes to the writer.
pub struct FileScan<'a> {
    handler: &'a Handler,
    filename: &'a str,
    records: Records<'a>,
    phase: Phase,
    match_count: usize,
    line_count: usize,
    closed: bool,
}

impl<'a> FileScan<'a> {
    /// The search that the file is read for.
    pub closed spec fn handler(&self) -> Handler {
        *self.handler
    }

    /// The name under which the file is shown.
    pub closed spec fn name(&self) -> Seq<u8> {
        self.filename.spec_bytes()
    }

    /// The lines fed so far.
    pub closed spec fn fed(&self) -> Seq<LineView> {
        self.records.consumed()
    }

    /// The phase and the count as they stand.
    pub closed spec fn state(&self) -> Progress {
        Progress { phase: self.phase, count: self.match_count as nat }
    }

    /// Whether the reader of the output has gone away.
    pub closed spec fn closed(&self) -> bool {
        self.closed
    }

    /// Whether no more lines are wanted.
    pub open spec fn halted(&self) -> bool {
        self.state().phase is Stopped || self.closed()
    }

    /// The state agrees with the lines fed.
    pub closed spec fn wf(&self) -> bool {
        &&& self.records.wf()
        &&& self.records.pattern() == self.handler.log_pattern
        &&& self.line_count == self.fed().len()
        &&& self.tracks()
    }

    /// What the state says of the lines fed: they are numbered from 1, and
    /// the phase and the count are those of the records that are complete.
    pub open spec fn tracks(&self) -> bool {
        &&& forall|i: int| 0 <= i < self.fed().len() ==> (#[trigger] self.fed()[i]).line_num == i + 1
        &&& self.state() == self.handler().progress(
            completed(records_of(self.handler().log_pattern, self.fed())),
        )
    }

    /// A state that agrees with the lines fed says of them what it should.
    pub proof fn lemma_tracks(self)
        requires
            self.wf(),
        ensures
            self.tracks(),
    {
    }

    /// The reading of a file shown as `filename`, before its first line.
    pub fn new(handler: &'a Handler, filename: &'a str) -> (scan: FileScan<'a>)
        ensures
            scan.wf(),
            scan.handler() == *handler,
            scan.name() == filename.spec_bytes(),
            scan.fed() == Seq::<LineView>::empty(),
            scan.state() == (Progress { phase: handler.initial_phase(), count: 0 }),
            !scan.closed(),
    {
        let phase = match handler.max_count {
            Some(0) => Phase::Stopped,
            _ => if handler.has_start() {
                Phase::BeforeStart
            } else {
                Phase::Active
            },
        };
        FileScan {
            handler,
            filename,
            records: Records::new(&handler.log_pattern),
            phase,
            match_count: 0,
            line_count: 0,
            closed: false,
        }
    }

    /// Whether the file is to be read further.
    pub fn wants_more(&self) -> (more: bool)
        ensures
            more == !self.halted(),
    {
        !self.closed && !matches!(self.phase, Phase::Stopped)
    }

    /// The number of lines fed so far.
    pub fn line_count(&self) -> (count: usize)
        requires
            self.wf(),
        ensures
            count == self.fed().len(),
    {
        self.line_count
    }

    /// Judges a complete record and writes it if it is selected. Returns
    /// the phase and the count after it.
    fn settle(
        handler: &Handler,
        filename: &str,
        phase: Phase,
        count: usize,
        record: Record,
        sink: &mut LgrepWrite,
    ) -> (after: (Phase, usize))
        requires
            count < usize::MAX,
        ensures
            (Progress { phase: after.0, count: after.1 as nat }) == handler.advance(
                Progress { phase, count: count as nat },
                record@,
            ),
            final(sink).format == old(sink).format,
            final(sink).buffer@ == old(sink).buffer@ + handler.emitted(
                old(sink).format,
                filename.spec_bytes(),
                record@,
                handler.judge(phase, count as nat, record@.text).1,
            ),
    {
        let (phase, outcome) = handler.judge_record(phase, count, record.text.as_str());
        let mut count = count;
        if matches!(outcome, Outcome::Selected) {
            count = count + 1;
            if !handler.counts && !handler.quiet {
                if !handler.invert_match && sink.needs_match_locations() {
                    let spans = find_spans(&handler.pattern_set, record.text.as_str());
                    sink.write_record_with_matches(filename, &record, &spans);
                } else {
                    sink.write_record(filename, &record);
                }
            }
        }
        assert(sink.buffer@ =~= old(sink).buffer@ + handler.emitted(
            old(sink).format,
            filename.spec_bytes(),
            record@,
            outcome,
        ));
        (phase, count)
    }

    /// Takes the next line of the file, terminator included. Where the
    /// line completes a record, the record is judged and, if selected,
    /// written. Returns whether the file is to be read further. Once it
    /// is not, lines are ignored.
    pub fn feed(&mut self, text: String, sink: &mut LgrepWrite) -> (more: bool)
        requires
            old(self).wf(),
            old(self).fed().len() < usize::MAX,
        ensures
            final(self).wf(),
            final(self).handler() == old(self).handler(),
            final(self).name() == old(self).name(),
            final(self).closed() == old(self).closed(),
            final(sink).format == old(sink).format,
            more == !final(self).halted(),
            old(self).halted() ==> final(self).fed() == old(self).fed() && final(self).state()
                == old(self).state() && final(sink).buffer@ == old(sink).buffer@,
            !old(self).halted() ==> final(self).fed() == old(self).fed().push(
                LineView { text: encode_utf8(text@), line_num: old(self).fed().len() + 1 },
            ) && final(self).state() == old(self).handler().step_progress(
                old(self).fed(),
                LineView { text: encode_utf8(text@), line_num: old(self).fed().len() + 1 },
            ) && final(sink).buffer@ == old(sink).buffer@ + old(self).handler().step_output(
                old(sink).format,
                old(self).name(),
                old(self).fed(),
                LineView { text: encode_utf8(text@), line_num: old(self).fed().len() + 1 },
            ),
    {
        if !self.wants_more() {
            return false;
        }
        let ghost re = self.handler.log_pattern;
        let ghost fed = self.fed();
        let ghost before = records_of(re, fed);
        self.line_count = self.line_count + 1;
        let line = Line { text, line_num: self.line_count };
        proof {
            lemma_records_push(re, fed, line@);
            lemma_records_len(re, fed, fed.len() as int);
            lemma_count_bounded(*self.handler, completed(before), completed(before).len() as int);
        }
        match self.records.push(line) {
            Some(record) => {
                proof {
                    let after = records_of(re, fed.push(line@));
                    assert(completed(after) =~= before);
                    lemma_progress_prefix(
                        *self.handler,
                        sink.format,
                        self.name(),
                        completed(before),
                        before,
                        completed(before).len() as int,
                    );
                }
                let (phase, count) = Self::settle(
                    self.handler,
                    self.filename,
                    self.phase,
                    self.match_count,
                    record,
                    sink,
                );
                self.phase = phase;
                self.match_count = count;
            },
            None => {
                proof {
                    let after = records_of(re, fed.push(line@));
                    assert(completed(after) =~= completed(before));
                }
            },
        }
        self.wants_more()
    }

    /// Ends the file. The record in progress is judged and, if selected,
    /// written; in counting mode the count follows. Nothing is written
    /// once the reader of the output has gone away. Returns how the file
    /// ended.
    pub fn finish(self, sink: &mut LgrepWrite) -> (exit: Exit)
        requires
            self.wf(),
        ensures
            final(sink).format == old(sink).format,
            self.closed() ==> exit == Exit::Terminate && final(sink).buffer@ == old(sink).buffer@,
            !self.closed() ==> exit == exit_for(
                self.handler().progress(records_of(self.handler().log_pattern, self.fed())).count,
            ) && final(sink).buffer@ == old(sink).buffer@ + self.handler().final_output(
                old(sink).format,
                self.name(),
                self.fed(),
            ),
    {
        if self.closed {
            return Exit::Terminate;
        }
        let ghost re = self.handler.log_pattern;
        let ghost fed = self.fed();
        let ghost records = records_of(re, fed);
        proof {
            lemma_records_len(re, fed, fed.len() as int);
            lemma_count_bounded(*self.handler, completed(records), completed(records).len() as int);
            lemma_progress_prefix(
                *self.handler,
                sink.format,
                self.name(),
                completed(records),
                records,
                completed(records).len() as int,
            );
        }
        let FileScan { handler, filename, records, phase, match_count, line_count: _, closed: _ } =
            self;
        let match_count = match records.finish() {
            Some(record) => Self::settle(handler, filename, phase, match_count, record, sink).1,
            None => match_count,
        };
        if handler.counts {
            sink.write_count(filename, match_count);
        }
        assert(sink.buffer@ =~= old(sink).buffer@ + self.handler().final_output(
            old(sink).format,
            self.name(),
            self.fed(),
        ));
        if match_count == 0 {
            Exit::NoMatch
        } else {
            Exit::Match
        }
    }

    /// Takes note of what became of an attempt to hand output on. After a
    /// broken pipe the file is read no further and ends with
    /// [`Exit::Terminate`]; any other failure is an error.
    pub fn delivered(&mut self, delivery: Delivery) -> (verdict: Result<(), WriteError>)
        requires
            old(self).wf(),
        ensures
            final(self).wf(),
            final(self).handler() == old(self).handler(),
            final(self).name() == old(self).name(),
            final(self).fed() == old(self).fed(),
            final(self).state() == old(self).state(),
            final(self).closed() == (old(self).closed() || delivery == Delivery::BrokenPipe),
            verdict is Err <==> delivery == Delivery::Failed,
    {
        match after_write(delivery) {
            Ok(Exit::Terminate) => {
                self.closed = true;
                Ok(())
            },
            Ok(_) => Ok(()),
            Err(error) => Err(error),
        }
    }
}

} // verus!
