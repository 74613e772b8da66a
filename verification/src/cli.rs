//! The options of a search, as given on the command line.

use vstd::prelude::*;

verus! {

/// When to colour the output.
#[derive(Debug, PartialEq, Eq, Structural, Clone, Copy)]
pub enum ColorChoice {
    /// When the output goes to a terminal.
    Auto,
    Always,
    Never,
}

/// The options of a search.
#[derive(Debug)]
pub struct Cli {
    /// The pattern given by position.
    pub pattern: Option<String>,
    /// The files to search. None, or `-`, is standard input.
    pub files: Vec<String>,
    /// The patterns given by option.
    pub patterns: Vec<String>,
    /// Match without regard to case. This holds for every pattern, the
    /// record-start, start and end patterns included.
    pub ignore_case: bool,
    /// Stop reading a file after this many selected records.
    pub max_count: Option<usize>,
    /// Select the records that match none of the patterns.
    pub invert_match: bool,
    /// Write only the number of selected records.
    pub count: bool,
    /// The name to show for standard input.
    pub label: Option<String>,
    /// When to colour the output.
    pub color: ColorChoice,
    /// The pattern that marks the first line of a record.
    pub log_pattern: Option<String>,
    /// Pass over the records of a file until one matches this pattern.
    pub start: Option<String>,
    /// Pass over the rest of a file once a record matches this pattern.
    pub end: Option<String>,
    /// Always precede output lines with the file name.
    pub filename: bool,
    /// Never precede output lines with the file name.
    pub no_filename: bool,
    /// Precede output lines with their line number.
    pub line_number: bool,
    /// Write nothing, and stop at the first selected record.
    pub quiet: bool,
    /// Show the long help.
    pub help: bool,
}

impl Cli {
    /// Whether any search pattern was given.
    pub open spec fn patterned(&self) -> bool {
        self.pattern is Some || self.patterns@.len() > 0
    }

    /// Whether the positional pattern is in truth a file: it is where
    /// patterns are given by option as well.
    pub open spec fn pattern_is_file(&self) -> bool {
        self.patterns@.len() > 0 && self.pattern is Some
    }

    /// `self` is `given` as `grep` reads it: a positional pattern that is
    /// in truth a file stands first among the files, and nothing else is
    /// changed.
    pub open spec fn is_like_grep(&self, given: Cli) -> bool {
        if given.pattern_is_file() {
            &&& self.pattern is None
            &&& self.files@ == given.files@.insert(0, given.pattern->0)
            &&& *self == (Cli { pattern: self.pattern, files: self.files, ..given })
        } else {
            *self == given
        }
    }

    /// Reads the options as `grep` does: once patterns are given by
    /// option, the first positional argument is a file, not a pattern.
    pub fn like_grep(self) -> (cli: Cli)
        ensures
            cli.is_like_grep(self),
    {
        let mut cli = self;
        if !cli.patterns.is_empty() {
            if let Some(p) = cli.pattern.take() {
                cli.files.insert(0, p);
            }
        }
        cli
    }

    /// Whether any search pattern was given.
    pub fn has_patterns(&self) -> (given: bool)
        ensures
            given == self.patterned(),
    {
        self.pattern.is_some() || !self.patterns.is_empty()
    }
}

} // verus!
