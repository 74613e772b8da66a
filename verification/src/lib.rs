//! Search text for multi-line log records.
//!
//! Input lines are grouped into records, a record being the line that opens
//! it and every line that follows until the next opening line. Records are
//! then tested against the search patterns, and the selected ones are
//! rendered with optional file name, line number and colour annotation.
//!
//! The way through the library:
//!
//! - [`cli`] holds the options of a search and [`handler`] the search that
//!   they resolve to, with its patterns compiled; [`run`] decides between
//!   the two kinds of help, an empty answer and a search.
//! - [`lines`] cuts a text into numbered lines and [`records`] groups lines
//!   into records.
//! - [`select`] says which records are selected and when a file has been
//!   read far enough; [`scan`] does so a line at a time, for a caller that
//!   reads the file and writes the output itself; [`search`] does so for
//!   whole texts held in memory.
//! - [`write`] renders what is selected, in the styles of [`capabilities`].
//! - [`pattern`] is where the regular-expression engine is called, and
//!   [`text`] holds what is said about bytes and lines.
//! - [`laws`] states what holds of all of this together.
//!
//! The library neither reads nor writes. Texts are strings, output is
//! bytes in a buffer, and every function says exactly which bytes.

use crate::cli::Cli;
use crate::handler::{log_source, optional_compiles, search_sources, Handler, PatternError};
use crate::pattern::patterns_compile;
use vstd::prelude::*;

pub mod capabilities;
pub mod cli;
pub mod handler;
pub mod laws;
pub mod lines;
pub mod pattern;
pub mod records;
pub mod scan;
pub mod search;
pub mod select;
pub mod source;
pub mod text;
pub mod write;

verus! {

/// How a search ended.
#[derive(Debug, PartialEq, Eq, Structural, Clone, Copy)]
pub enum Exit {
    /// Help was shown in place of a search.
    Help,
    /// The search failed.
    Error,
    /// The reader of the output went away.
    Terminate,
    /// No record was selected.
    NoMatch,
    /// At least one record was selected.
    Match,
}

/// The exit for a number of selected records.
pub open spec fn exit_for(count: nat) -> Exit {
    if count == 0 {
        Exit::NoMatch
    } else {
        Exit::Match
    }
}

impl From<usize> for Exit {
    /// The exit for a number of selected records.
    fn from(match_count: usize) -> (exit: Exit) {
        if match_count == 0 {
            Exit::NoMatch
        } else {
            Exit::Match
        }
    }
}

impl vstd::std_specs::convert::FromSpecImpl<usize> for Exit {
    open spec fn obeys_from_spec() -> bool {
        true
    }

    open spec fn from_spec(match_count: usize) -> Exit {
        exit_for(match_count as nat)
    }
}

/// What to do with a set of options.
pub enum Launch {
    /// Show the short help.
    ShortHelp,
    /// Show the long help.
    LongHelp,
    /// Nothing is left to do; this is the exit.
    Done(Exit),
    /// Run this search.
    Search(Handler),
}

/// The search patterns of the options as `grep` reads them: those given
/// by option, or else the one given by position.
pub open spec fn grep_sources(args: Cli) -> Seq<Seq<char>> {
    if args.patterns@.len() > 0 {
        args.patterns.deep_view()
    } else {
        search_sources(args)
    }
}

/// Whether every pattern of the options compiles.
pub open spec fn all_compile(args: Cli, env_log_pattern: Option<String>) -> bool {
    &&& patterns_compile(seq![log_source(args, env_log_pattern)], args.ignore_case)
    &&& optional_compiles(args.start, args.ignore_case)
    &&& optional_compiles(args.end, args.ignore_case)
    &&& patterns_compile(grep_sources(args), args.ignore_case)
}

/// The search is what the options, read as `grep` reads them, ask for.
pub open spec fn resolves(handler: Handler, args: Cli, env_log_pattern: Option<String>) -> bool {
    exists|cli: Cli| #[trigger] cli.is_like_grep(args) && handler.configured_from(cli, env_log_pattern)
}

/// What a set of options asks for, before any pattern is compiled.
pub enum Asked {
    /// File names are left out and no pattern is given.
    ShortHelp,
    /// Help is asked for.
    LongHelp,
    /// At most zero records are wanted.
    Nothing,
    /// A search.
    Search,
}

/// What the options ask for. The first of the cases that holds decides.
pub open spec fn asked(args: Cli) -> Asked {
    if args.no_filename && !args.patterned() {
        Asked::ShortHelp
    } else if args.help {
        Asked::LongHelp
    } else if args.max_count == Some(0usize) {
        Asked::Nothing
    } else {
        Asked::Search
    }
}

/// Decides what a set of options asks for. Leaving file names out
/// without giving a pattern gets the short help, and a request for help
/// the long one. A maximum of zero records is met before anything is
/// read: there is no match. Everything else is a search, which is made
/// ready here and fails if a pattern does not compile.
/// `env_log_pattern` is the record-start pattern that the environment
/// supplies, if it does.
pub fn run(args: Cli, env_log_pattern: Option<String>) -> (launch: Result<Launch, PatternError>)
    ensures
        match asked(args) {
            Asked::ShortHelp => launch matches Ok(Launch::ShortHelp),
            Asked::LongHelp => launch matches Ok(Launch::LongHelp),
            Asked::Nothing => launch matches Ok(Launch::Done(Exit::NoMatch)),
            Asked::Search => match launch {
                Ok(found) => {
                    &&& all_compile(args, env_log_pattern)
                    &&& found matches Launch::Search(handler) && resolves(
                        handler,
                        args,
                        env_log_pattern,
                    )
                },
                Err(error) => !all_compile(args, env_log_pattern) && error.blames(
                    patterns_compile(seq![log_source(args, env_log_pattern)], args.ignore_case),
                    optional_compiles(args.start, args.ignore_case),
                    optional_compiles(args.end, args.ignore_case),
                    patterns_compile(grep_sources(args), args.ignore_case),
                ),
            },
        },
{
    let cli = args.like_grep();
    if cli.no_filename && !cli.has_patterns() {
        Ok(Launch::ShortHelp)
    } else if cli.help {
        Ok(Launch::LongHelp)
    } else if let Some(0) = cli.max_count {
        // odd, but allowed
        Ok(Launch::Done(Exit::NoMatch))
    } else {
        proof {
            assert(search_sources(cli) =~= grep_sources(args));
        }
        match Handler::new(cli, env_log_pattern) {
            Ok(handler) => Ok(Launch::Search(handler)),
            Err(error) => Err(error),
        }
    }
}

} // verus!
