//! Searching whole texts: one source, or several one after the other.

use crate::handler::{is_stdin, Handler, DEFAULT_STDIN_LABEL};
use crate::lines::numbered;
use crate::records::{records_of, RecordView};
use crate::scan::FileScan;
use crate::select::{
    completed, lemma_early_stop, lemma_final_output, lemma_step_output,
};
use crate::source::Source;
use crate::text::split_lines;
use crate::write::{Format, LgrepWrite};
use crate::{exit_for, Exit};
use vstd::prelude::*;
use vstd::string::*;
use vstd::utf8::*;

verus! {

impl Handler {
    /// The name under which a file is shown, as bytes.
    pub open spec fn shown(&self, filename: &str) -> Seq<u8> {
        encode_utf8(
            if is_stdin(filename.spec_bytes()) {
                match self.stdin_label {
                    Some(label) => label@,
                    None => DEFAULT_STDIN_LABEL@,
                }
            } else {
                filename@
            },
        )
    }

    /// Searches one source and writes what is selected. The source is
    /// read only as far as needed; the result is that of reading all of
    /// it.
    pub fn process_file(&self, source: &Source, sink: &mut LgrepWrite) -> (exit: Exit)
        ensures
            final(sink).format == old(sink).format,
            final(sink).buffer@ == old(sink).buffer@ + self.file_output(
                old(sink).format,
                source.filename.spec_bytes(),
                source.lines_view(),
            ),
            exit == exit_for(self.file_count(source.lines_view())),
    {
        let ghost all = source.lines_view();
        let ghost texts = split_lines(source.text.spec_bytes());
        let ghost name = source.filename.spec_bytes();
        let ghost format = sink.format;
        let mut lines = source.lines();
        let mut scan = FileScan::new(self, source.filename);
        assert(completed(records_of(self.log_pattern, scan.fed())) =~= Seq::<RecordView>::empty());
        loop
            invariant
                lines.wf(),
                scan.wf(),
                scan.handler() == *self,
                scan.name() == name,
                !scan.closed(),
                all == numbered(texts, 1),
                sink.format == format,
                scan.fed().len() <= all.len(),
                scan.fed() == all.subrange(0, scan.fed().len() as int),
                lines.count() + lines.remaining().len() == texts.len(),
                !scan.halted() ==> lines.count() == scan.fed().len(),
                lines.remaining() == texts.subrange(lines.count() as int, texts.len() as int),
                sink.buffer@ == old(sink).buffer@ + self.output(
                    format,
                    name,
                    completed(records_of(self.log_pattern, scan.fed())),
                ),
            ensures
                scan.halted() || scan.fed() == all,
            decreases lines.remaining().len(),
        {
            if !scan.wants_more() {
                break ;
            }
            let ghost fed = scan.fed();
            match lines.next() {
                Some(line) => {
                    proof {
                        lemma_step_output(*self, format, name, fed, line@);
                        assert(fed.push(line@) =~= all.subrange(0, fed.len() as int + 1));
                        assert(lines.remaining() =~= texts.subrange(
                            lines.count() as int,
                            texts.len() as int,
                        ));
                    }
                    scan.feed(line.text, sink);
                },
                None => {
                    assert(fed =~= all);
                    break ;
                },
            }
        }
        proof {
            let fed = scan.fed();
            scan.lemma_tracks();
            lemma_final_output(*self, format, name, fed);
            if scan.halted() {
                assert(fed.subrange(0, fed.len() as int) =~= fed);
                lemma_early_stop(*self, format, name, fed, fed.len() as int);
                lemma_early_stop(*self, format, name, all, fed.len() as int);
            }
        }
        scan.finish(sink)
    }
}

/// How a run over several sources stands: the exit so far, whether to
/// stop, and what has been written.
pub struct RunView {
    pub exit: Exit,
    pub stop: bool,
    pub output: Seq<u8>,
}

impl Handler {
    /// The exit of a run after one more file, and whether the run stops
    /// there. A broken pipe ends the run; a match is remembered, and in
    /// quiet mode ends the run too.
    pub open spec fn merged(&self, so_far: Exit, file: Exit) -> (Exit, bool) {
        match file {
            Exit::Terminate => (Exit::Terminate, true),
            Exit::Match => (Exit::Match, self.quiet),
            _ => (so_far, false),
        }
    }

    /// The exit of a run after one more file, and whether the run stops
    /// there. A broken pipe ends the run; a match is remembered, and in
    /// quiet mode ends the run too.
    pub fn after_file(&self, so_far: Exit, file: Exit) -> (next: (Exit, bool))
        ensures
            next == self.merged(so_far, file),
    {
        match file {
            Exit::Terminate => (Exit::Terminate, true),
            Exit::Match => (Exit::Match, self.quiet),
            _ => (so_far, false),
        }
    }

    /// The run over the first `n` of the sources, each shown under the
    /// name that goes with its file name.
    pub open spec fn run_upto(&self, format: Format, sources: Seq<Source>, n: int) -> RunView
        decreases n,
    {
        if n <= 0 {
            RunView { exit: Exit::NoMatch, stop: false, output: Seq::empty() }
        } else {
            let before = self.run_upto(format, sources, n - 1);
            if before.stop {
                before
            } else {
                let source = sources[n - 1];
                let (exit, stop) = self.merged(
                    before.exit,
                    exit_for(self.file_count(source.lines_view())),
                );
                RunView {
                    exit,
                    stop,
                    output: before.output + self.file_output(
                        format,
                        self.shown(source.filename),
                        source.lines_view(),
                    ),
                }
            }
        }
    }

    /// Searches the sources one after the other and writes what is
    /// selected. In quiet mode the run ends with the first source that
    /// has a match. Returns [`Exit::Match`] if any source had one.
    pub fn run_with(&self, sources: &Vec<Source>, sink: &mut LgrepWrite) -> (exit: Exit)
        ensures
            final(sink).format == old(sink).format,
            final(sink).buffer@ == old(sink).buffer@ + self.run_upto(
                old(sink).format,
                sources@,
                sources@.len() as int,
            ).output,
            exit == self.run_upto(old(sink).format, sources@, sources@.len() as int).exit,
    {
        let ghost format = sink.format;
        let mut exit = Exit::NoMatch;
        let mut stop = false;
        let mut i: usize = 0;
        while i < sources.len() && !stop
            invariant
                i <= sources@.len(),
                sink.format == format,
                exit == self.run_upto(format, sources@, i as int).exit,
                stop == self.run_upto(format, sources@, i as int).stop,
                sink.buffer@ == old(sink).buffer@ + self.run_upto(format, sources@, i as int).output,
            decreases sources@.len() - i,
        {
            let source = &sources[i];
            let shown = Source::new(self.display_name_for_filename(source.filename), source.text);
            let file = self.process_file(&shown, sink);
            let next = self.after_file(exit, file);
            exit = next.0;
            stop = next.1;
            i += 1;
            assert(sink.buffer@ =~= old(sink).buffer@ + self.run_upto(
                format,
                sources@,
                i as int,
            ).output);
        }
        proof {
            if stop {
                lemma_run_stops(*self, format, sources@, i as int, sources@.len() as int);
            }
        }
        exit
    }
}

/// A run that has stopped stays as it is.
pub proof fn lemma_run_stops(handler: Handler, format: Format, sources: Seq<Source>, k: int, m: int)
    requires
        0 <= k <= m,
        handler.run_upto(format, sources, k).stop,
    ensures
        handler.run_upto(format, sources, m) == handler.run_upto(format, sources, k),
    decreases m - k,
{
    if k < m {
        lemma_run_stops(handler, format, sources, k, m - 1);
    }
}

} // verus!
