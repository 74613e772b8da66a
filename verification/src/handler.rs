//! A search as it is carried out: the options resolved into compiled
//! patterns and settled switches.

use crate::cli::{Cli, ColorChoice};
use crate::pattern::{
    compile, is_match, patterns_compile, regex_accepts, regex_ignores_case, regex_sources,
};
use regex_automata::meta::{BuildError, Regex};
use vstd::prelude::*;
use vstd::string::*;

verus! {

/// The file name that stands for standard input.
pub const STDIN_FILENAME: &'static str = "-";

/// The record-start pattern used when none is given: a date and a time of
/// day with a fraction of a second, at the start of the line or after a
/// colon.
pub const DEFAULT_LOG_PATTERN: &'static str = "(^|:)\\d{4}-\\d{2}-\\d{2}[ T]\\d{2}:\\d{2}:\\d{2}[.,]\\d";

/// The name shown for standard input when no label is given.
pub const DEFAULT_STDIN_LABEL: &'static str = "(standard input)";

/// A pattern that does not compile, by the role it was given for.
#[derive(Debug)]
pub enum PatternError {
    /// The record-start pattern.
    LogPattern(BuildError),
    /// The start pattern.
    Start(BuildError),
    /// The end pattern.
    End(BuildError),
    /// One of the search patterns.
    Search(BuildError),
}

impl PatternError {
    /// The error names the first pattern that fails, the patterns being
    /// taken in the order record-start, start, end, search.
    pub open spec fn blames(&self, log: bool, start: bool, end: bool, search: bool) -> bool {
        match self {
            PatternError::LogPattern(_) => !log,
            PatternError::Start(_) => log && !start,
            PatternError::End(_) => log && start && !end,
            PatternError::Search(_) => log && start && end && !search,
        }
    }
}

/// A search, ready to run.
pub struct Handler {
    /// The files to search, in order.
    pub files: Vec<String>,
    /// The search patterns, compiled into one expression.
    pub pattern_set: Regex,
    /// Stop reading a file after this many selected records.
    pub max_count: Option<usize>,
    /// Select the records that match none of the patterns.
    pub invert_match: bool,
    /// Write only the number of selected records.
    pub counts: bool,
    /// When to colour the output.
    pub color_mode: ColorChoice,
    /// Write nothing, and stop at the first selected record.
    pub quiet: bool,
    /// The name to show for standard input.
    pub stdin_label: Option<String>,
    /// The pattern that marks the first line of a record.
    pub log_pattern: Regex,
    /// Records are passed over until one matches this pattern.
    pub start: Option<Regex>,
    /// The rest of a file is passed over once a record matches this
    /// pattern.
    pub end: Option<Regex>,
    /// Whether output lines are preceded by the file name.
    pub filenames: bool,
    /// Whether output lines are preceded by their line number.
    pub line_numbers: bool,
}

/// The search patterns of the options: those given by option, then the one
/// given by position.
pub open spec fn search_sources(cli: Cli) -> Seq<Seq<char>> {
    match cli.pattern {
        Some(pattern) => cli.patterns.deep_view().push(pattern@),
        None => cli.patterns.deep_view(),
    }
}

/// The record-start pattern of the options: the one given, else the one
/// from the environment, else the default.
pub open spec fn log_source(cli: Cli, env_log_pattern: Option<String>) -> Seq<char> {
    match cli.log_pattern {
        Some(pattern) => pattern@,
        None => match env_log_pattern {
            Some(pattern) => pattern@,
            None => DEFAULT_LOG_PATTERN@,
        },
    }
}

/// The files of the options, or standard input if there are none.
pub open spec fn file_list(cli: Cli) -> Seq<Seq<char>> {
    if cli.files@.len() == 0 {
        seq![STDIN_FILENAME@]
    } else {
        cli.files.deep_view()
    }
}

/// An optional pattern compiles if it is absent or compiles.
pub open spec fn optional_compiles(pattern: Option<String>, ignore_case: bool) -> bool {
    pattern matches Some(p) ==> patterns_compile(seq![p@], ignore_case)
}

/// `re` is the pattern `source` alone, compiled under the given case mode.
pub open spec fn compiled_from(re: Regex, source: Seq<char>, ignore_case: bool) -> bool {
    regex_sources(re) == seq![source] && regex_ignores_case(re) == ignore_case
}

/// `re` is the optional pattern `source`, compiled under the given case
/// mode.
pub open spec fn optional_from(re: Option<Regex>, source: Option<String>, ignore_case: bool) -> bool {
    match source {
        Some(p) => re matches Some(re) && compiled_from(re, p@, ignore_case),
        None => re is None,
    }
}

/// Whether the expression, if there is one, matches in the text.
pub open spec fn optional_accepts(re: Option<Regex>, hay: Seq<u8>) -> bool {
    re matches Some(re) && regex_accepts(re, hay)
}

/// Whether `name` is the name that stands for standard input.
pub open spec fn is_stdin(name: Seq<u8>) -> bool {
    name == seq![0x2du8]
}

/// Compiles one pattern.
fn compile_one(pattern: String, ignore_case: bool) -> (built: Result<Regex, BuildError>)
    ensures
        built is Ok <==> patterns_compile(seq![pattern@], ignore_case),
        built matches Ok(re) ==> compiled_from(re, pattern@, ignore_case),
{
    let mut patterns = Vec::new();
    patterns.push(pattern);
    assert(patterns.deep_view() =~= seq![pattern@]);
    compile(&patterns, ignore_case)
}

/// Compiles a pattern that may be absent.
fn compile_optional(pattern: Option<String>, ignore_case: bool) -> (built: Result<
    Option<Regex>,
    BuildError,
>)
    ensures
        built is Ok <==> optional_compiles(pattern, ignore_case),
        built matches Ok(re) ==> optional_from(re, pattern, ignore_case),
{
    match pattern {
        Some(pattern) => match compile_one(pattern, ignore_case) {
            Ok(re) => Ok(Some(re)),
            Err(error) => Err(error),
        },
        None => Ok(None),
    }
}

/// Whether the expression, if there is one, matches in the text.
fn opt_re_match(opt_re: &Option<Regex>, hay: &str) -> (found: bool)
    ensures
        found == optional_accepts(*opt_re, hay.spec_bytes()),
{
    match opt_re {
        Some(re) => is_match(re, hay),
        None => false,
    }
}

impl Handler {
    /// The search is what the options ask for.
    pub open spec fn configured_from(&self, cli: Cli, env_log_pattern: Option<String>) -> bool {
        &&& self.files.deep_view() == file_list(cli)
        &&& regex_sources(self.pattern_set) == search_sources(cli)
        &&& regex_ignores_case(self.pattern_set) == cli.ignore_case
        &&& compiled_from(self.log_pattern, log_source(cli, env_log_pattern), cli.ignore_case)
        &&& optional_from(self.start, cli.start, cli.ignore_case)
        &&& optional_from(self.end, cli.end, cli.ignore_case)
        &&& self.max_count == cli.max_count
        &&& self.invert_match == cli.invert_match
        &&& self.counts == cli.count
        &&& self.color_mode == cli.color
        &&& self.quiet == cli.quiet
        &&& self.stdin_label == cli.label
        &&& self.filenames == (!cli.no_filename && (cli.filename || cli.files@.len() > 1))
        &&& self.line_numbers == (cli.line_number && !cli.count)
    }

    /// Resolves the options into a search. `env_log_pattern` is the
    /// record-start pattern that the environment supplies, if it does;
    /// one given in the options goes before it. All patterns are compiled
    /// under the one case mode of the options. The patterns are compiled
    /// in the order record-start, start, end, search, and the first that
    /// fails is the error.
    pub fn new(cli: Cli, env_log_pattern: Option<String>) -> (made: Result<Handler, PatternError>)
        ensures
            made matches Ok(handler) ==> handler.configured_from(cli, env_log_pattern),
            made is Ok <==> {
                &&& patterns_compile(seq![log_source(cli, env_log_pattern)], cli.ignore_case)
                &&& optional_compiles(cli.start, cli.ignore_case)
                &&& optional_compiles(cli.end, cli.ignore_case)
                &&& patterns_compile(search_sources(cli), cli.ignore_case)
            },
            made matches Err(error) ==> error.blames(
                patterns_compile(seq![log_source(cli, env_log_pattern)], cli.ignore_case),
                optional_compiles(cli.start, cli.ignore_case),
                optional_compiles(cli.end, cli.ignore_case),
                patterns_compile(search_sources(cli), cli.ignore_case),
            ),
    {
        let Cli {
            pattern,
            files,
            patterns,
            ignore_case,
            max_count,
            invert_match,
            count,
            label,
            color,
            log_pattern,
            start,
            end,
            filename,
            no_filename,
            line_number,
            quiet,
            help: _,
        } = cli;
        let mut patterns = patterns;
        if let Some(p) = pattern {
            patterns.push(p);
        }
        assert(patterns.deep_view() =~= search_sources(cli));
        let source = match log_pattern {
            Some(p) => p,
            None => match env_log_pattern {
                Some(p) => p,
                None => DEFAULT_LOG_PATTERN.to_owned(),
            },
        };
        let log_pattern = match compile_one(source, ignore_case) {
            Ok(re) => re,
            Err(error) => {
                return Err(PatternError::LogPattern(error));
            },
        };
        let start = match compile_optional(start, ignore_case) {
            Ok(re) => re,
            Err(error) => {
                return Err(PatternError::Start(error));
            },
        };
        let end = match compile_optional(end, ignore_case) {
            Ok(re) => re,
            Err(error) => {
                return Err(PatternError::End(error));
            },
        };
        let pattern_set = match compile(&patterns, ignore_case) {
            Ok(re) => re,
            Err(error) => {
                return Err(PatternError::Search(error));
            },
        };
        let mut files = files;
        if files.is_empty() {
            files.push(STDIN_FILENAME.to_owned());
        }
        assert(files.deep_view() =~= file_list(cli));
        // Leaving file names out wins; else they are shown on request, or
        // when there is more than one file.
        let filenames = if no_filename {
            false
        } else {
            filename || files.len() > 1
        };
        Ok(
            Handler {
                files,
                pattern_set,
                max_count,
                invert_match,
                counts: count,
                color_mode: color,
                quiet,
                stdin_label: label,
                log_pattern,
                start,
                end,
                filenames,
                line_numbers: line_number && !count,
            },
        )
    }

    /// Whether the output is coloured, given whether it goes to a
    /// terminal.
    pub fn colorize(&self, is_terminal: bool) -> (colorize: bool)
        ensures
            colorize == match self.color_mode {
                ColorChoice::Auto => is_terminal,
                ColorChoice::Always => true,
                ColorChoice::Never => false,
            },
    {
        match self.color_mode {
            ColorChoice::Auto => is_terminal,
            ColorChoice::Always => true,
            ColorChoice::Never => false,
        }
    }

    /// The name under which a file is shown: the file's own, or for
    /// standard input the label, or the default label if there is none.
    pub fn display_name_for_filename<'a>(&'a self, f: &'a str) -> (name: &'a str)
        ensures
            name@ == if is_stdin(f.spec_bytes()) {
                match self.stdin_label {
                    Some(label) => label@,
                    None => DEFAULT_STDIN_LABEL@,
                }
            } else {
                f@
            },
    {
        let bytes = f.as_bytes();
        if bytes.len() == 1 && bytes[0] == 0x2d {
            assert(bytes@ =~= seq![0x2du8]);
            match &self.stdin_label {
                Some(label) => label.as_str(),
                None => DEFAULT_STDIN_LABEL,
            }
        } else {
            f
        }
    }

    /// Whether selecting stops at `match_count` selected records.
    pub open spec fn max_reached(&self, match_count: nat) -> bool {
        self.quiet || (self.max_count matches Some(max) && match_count >= max)
    }

    /// Whether selecting stops at `match_count` selected records: at the
    /// first in quiet mode, and at the maximum if one is set.
    pub fn is_max_reached(&self, match_count: usize) -> (reached: bool)
        ensures
            reached == self.max_reached(match_count as nat),
    {
        self.quiet || match self.max_count {
            Some(max) => match_count >= max,
            None => false,
        }
    }

    /// Whether a start pattern is set.
    pub fn has_start(&self) -> (has: bool)
        ensures
            has == self.start is Some,
    {
        self.start.is_some()
    }

    /// Whether the start pattern is set and matches in `hay`.
    pub fn is_start(&self, hay: &str) -> (found: bool)
        ensures
            found == optional_accepts(self.start, hay.spec_bytes()),
    {
        opt_re_match(&self.start, hay)
    }

    /// Whether an end pattern is set.
    pub fn has_end(&self) -> (has: bool)
        ensures
            has == self.end is Some,
    {
        self.end.is_some()
    }

    /// Whether the end pattern is set and matches in `hay`.
    pub fn is_end(&self, hay: &str) -> (found: bool)
        ensures
            found == optional_accepts(self.end, hay.spec_bytes()),
    {
        opt_re_match(&self.end, hay)
    }
}

} // verus!
