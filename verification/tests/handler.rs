use lgrep::cli::{Cli, ColorChoice};
use lgrep::handler::{Handler, PatternError};
use lgrep::lines::Lines;
use lgrep::scan::FileScan;
use lgrep::source::Source;
use lgrep::write::LgrepWrite;
use lgrep::Exit;
use regex_automata::meta::Regex;

const RECORD_DRAINING: &str = "2024-07-01 01:25:46.123 draining queue\n";
const RECORD_WITH_TRACE: &str = "2024-07-01 01:25:47.755 Unexpected error occurred in scheduled task
org.springframework.transaction.CannotCreateTransactionException: Could not open JPA EntityManager for transaction
    at org.springframework.orm.jpa.JpaTransactionManager.doBegin(JpaTransactionManager.java:466)
    at org.springframework.transaction.support.AbstractPlatformTransactionManager.startTransaction(AbstractPlatformTransactionManager.java:531)
    at org.springframework.transaction.support.AbstractPlatformTransactionManager.getTransaction(AbstractPlatformTransactionManager.java:405)
    at org.springframework.transaction.support.TransactionTemplate.execute(TransactionTemplate.java:137)
    at com.brennaswitzer.cookbook.async.QueueProcessor.drainQueueInternal(QueueProcessor.java:68)
    ... many more frames ...
";
const RECORD_COMPLETE: &str = "2024-07-01 01:25:47.790 queue draining complete (ERROR)\n";
const RECORD_UNRELATED: &str = "2024-07-01 01:25:48.000 some other unrelated log message\n";

fn app_log() -> String {
    [RECORD_DRAINING, RECORD_WITH_TRACE, RECORD_COMPLETE, RECORD_UNRELATED].concat()
}

fn no_options() -> Cli {
    Cli {
        pattern: None,
        files: vec![],
        patterns: vec![],
        ignore_case: false,
        max_count: None,
        invert_match: false,
        count: false,
        label: None,
        color: ColorChoice::Auto,
        log_pattern: None,
        start: None,
        end: None,
        filename: false,
        no_filename: false,
        line_number: false,
        quiet: false,
        help: false,
    }
}

fn all_re_options() -> Cli {
    Cli {
        pattern: Some(r"P".to_owned()),
        patterns: vec![r"Q".to_owned(), r"R".to_owned()],
        log_pattern: Some(r"L".to_owned()),
        start: Some(r"S".to_owned()),
        end: Some(r"E".to_owned()),
        ..no_options()
    }
}

fn some(pattern: &str) -> Option<String> {
    Some(pattern.to_owned())
}

fn handler_for(cli: Cli) -> Handler {
    Handler::new(cli, None).unwrap()
}

/// A search for `a` among records that start with a date and a time.
fn empty_handler() -> Handler {
    handler_for(Cli { pattern: some("a"), ..no_options() })
}

fn all_re_handler() -> Handler {
    handler_for(Cli {
        patterns: vec!["P".to_owned(), "Q".to_owned(), "R".to_owned()],
        log_pattern: some("L"),
        start: some("S"),
        end: some("E"),
        ..no_options()
    })
}

fn old_all_re_handler() -> Handler {
    handler_for(Cli {
        patterns: vec!["P".to_owned(), "Q".to_owned(), "R".to_owned()],
        log_pattern: some("T"),
        start: some("S"),
        end: some("E"),
        ..no_options()
    })
}

/// Assert a Regex is as it should be, based on the passed match and non-match
/// lists of haystacks.
fn assert_re(re: &Regex, matches: &[&str], non_matches: &[&str]) {
    for m in matches {
        assert!(re.is_match(m), "Should have matched '{m}', but didn't");
    }
    for m in non_matches {
        assert!(!re.is_match(m), "Shouldn't have matched '{m}', but did");
    }
}

/// What a search wrote, one entry for each time output was handed on.
#[derive(Default, Debug)]
struct MatchesAndCount {
    records: Vec<String>,
    flush_count: usize,
    exit: Option<Exit>,
}

impl MatchesAndCount {
    fn hand_on(&mut self, sink: &mut LgrepWrite) {
        let bytes = sink.take();
        if !bytes.is_empty() {
            self.records.push(String::from_utf8(bytes).unwrap());
            self.flush_count += 1;
        }
    }

    fn run(handler: &Handler, source: &str) -> MatchesAndCount {
        Self::run_with_filename(handler, "input.txt", source)
    }

    /// Reads `source` line by line, as a program would read a file, and
    /// hands output on after every line.
    fn run_with_filename(handler: &Handler, filename: &str, source: &str) -> MatchesAndCount {
        let colorize = handler.color_mode == ColorChoice::Always;
        let mut sink = LgrepWrite::new(colorize, handler.filenames, handler.line_numbers);
        let mut mac = MatchesAndCount::default();
        let mut scan = FileScan::new(handler, filename);
        let mut lines = Lines::new(source);
        while scan.wants_more() {
            match lines.next() {
                Some(line) => {
                    scan.feed(line.text, &mut sink);
                    mac.hand_on(&mut sink);
                }
                None => break,
            }
        }
        mac.exit = Some(scan.finish(&mut sink));
        mac.hand_on(&mut sink);

        // reading the text in one go writes the same
        let mut whole = LgrepWrite::new(colorize, handler.filenames, handler.line_numbers);
        let exit = handler.process_file(&Source::new(filename, source), &mut whole);
        assert_eq!(mac.exit, Some(exit));
        assert_eq!(mac.to_string(), String::from_utf8(whole.take()).unwrap());
        mac
    }

    fn to_string(&self) -> String {
        self.records.concat()
    }
}

// ---- a search made from options

#[test]
fn empty() {
    let h = handler_for(no_options());
    assert_eq!(vec!["-"], h.files);
    assert_eq!(0, h.pattern_set.pattern_len()); // nonsense, but run guards us
    assert_eq!(None, h.max_count);
    assert!(!h.invert_match);
    assert!(!h.counts);
    assert_eq!(ColorChoice::Auto, h.color_mode);
    assert_eq!(None, h.stdin_label);
    assert_re(
        &h.log_pattern,
        &["2024-07-25T12:02:57.123", "0000-00-00 00:00:00.0"],
        &["monday", ""],
    );
    assert!(h.start.is_none());
    assert!(h.end.is_none());
    assert!(!h.filenames);
}

#[test]
fn pattern() {
    let h = handler_for(Cli { pattern: some("goat"), ..no_options() });
    assert_re(&h.pattern_set, &["a goat horn"], &["a cow horn"]);
}

#[test]
fn patterns() {
    let h = handler_for(Cli { patterns: vec!["a".to_owned(), "b".to_owned()], ..no_options() });
    assert_re(&h.pattern_set, &["a", "b"], &["c", "A"]);
}

#[test]
fn pattern_and_patterns() {
    let h = handler_for(Cli {
        pattern: some("cow"),
        patterns: vec!["a".to_owned(), "b".to_owned()],
        ..no_options()
    });
    assert_re(
        &h.pattern_set,
        &["the cowpen", "cantaloupe", "robber"],
        &["cdefghijklmnopqrstuvwxyz", "ABCOW"],
    );
}

#[test]
fn ignore_case() {
    let h = handler_for(Cli { ignore_case: true, ..all_re_options() });
    assert_re(&h.pattern_set, &["q", "r", "p", "Q", "R", "P"], &["L", "S", "E"]);
    assert_re(&h.log_pattern, &["l", "L"], &["qwertyuiopasdfghjkzxcvbnm"]);
    assert_re(&h.start.unwrap(), &["s", "S"], &["qwertyuiopadfghjklzxcvbnm"]);
    assert_re(&h.end.unwrap(), &["e", "E"], &["qwrtyuiopasdfghjklzxcvbnm"]);
}

#[test]
fn explicit_stdin() {
    let h = handler_for(Cli { files: vec!["-".to_owned()], ..no_options() });
    assert_eq!(vec!["-"], h.files);
    assert!(!h.filenames);
}

#[test]
fn one_file() {
    let h = handler_for(Cli { files: vec!["app.log".to_owned()], ..no_options() });
    assert_eq!(vec!["app.log"], h.files);
    assert!(!h.filenames);
}

#[test]
fn one_file_with_filenames() {
    let h = handler_for(Cli { files: vec!["app.log".to_owned()], filename: true, ..no_options() });
    assert_eq!(vec!["app.log"], h.files);
    assert!(h.filenames);
}

#[test]
fn several_files() {
    let h = handler_for(Cli {
        files: vec!["app.log".to_owned(), "-".to_owned(), "cheese".to_owned()],
        ..no_options()
    });
    assert_eq!(vec!["app.log", "-", "cheese"], h.files);
    assert!(h.filenames);
}

#[test]
fn several_files_no_filenames() {
    let h = handler_for(Cli {
        files: vec!["app.log".to_owned(), "-".to_owned(), "cheese".to_owned()],
        no_filename: true,
        ..no_options()
    });
    assert_eq!(vec!["app.log", "-", "cheese"], h.files);
    assert!(!h.filenames);
}

#[test]
fn passthroughs() {
    let h = handler_for(Cli {
        max_count: Some(1),
        invert_match: true,
        count: true,
        color: ColorChoice::Always,
        quiet: true,
        label: some("goat"),
        ..no_options()
    });
    assert_eq!(Some(1), h.max_count);
    assert!(h.invert_match);
    assert!(h.counts);
    assert_eq!(ColorChoice::Always, h.color_mode);
    assert!(h.quiet);
    assert_eq!(Some("goat".to_owned()), h.stdin_label);
}

#[test]
fn line_numbers_give_way_to_counts() {
    assert!(handler_for(Cli { line_number: true, ..no_options() }).line_numbers);
    assert!(!handler_for(Cli { line_number: true, count: true, ..no_options() }).line_numbers);
}

#[test]
fn log_pattern_from_the_environment() {
    let h = Handler::new(no_options(), some("ENV")).unwrap();
    assert_re(&h.log_pattern, &["an ENV line"], &["2024-07-25T12:02:57.123"]);
    let h = Handler::new(Cli { log_pattern: some("OPT"), ..no_options() }, some("ENV")).unwrap();
    assert_re(&h.log_pattern, &["an OPT line"], &["an ENV line"]);
}

#[test]
fn bad_patterns_are_told_apart() {
    let bad = || some("(");
    let log = Handler::new(
        Cli { log_pattern: bad(), start: bad(), end: bad(), pattern: bad(), ..no_options() },
        None,
    );
    assert!(matches!(log, Err(PatternError::LogPattern(_))));
    let start =
        Handler::new(Cli { start: bad(), end: bad(), pattern: bad(), ..no_options() }, None);
    assert!(matches!(start, Err(PatternError::Start(_))));
    let end = Handler::new(Cli { end: bad(), pattern: bad(), ..no_options() }, None);
    assert!(matches!(end, Err(PatternError::End(_))));
    let search = Handler::new(Cli { pattern: bad(), ..no_options() }, None);
    assert!(matches!(search, Err(PatternError::Search(_))));
    let env = Handler::new(no_options(), bad());
    assert!(matches!(env, Err(PatternError::LogPattern(_))));
}

// ---- the parts of a search

#[test]
fn handler_tests_no_start() {
    let h = empty_handler();
    assert!(!h.has_start());
}

#[test]
fn handler_tests_with_start() {
    let h = all_re_handler();
    assert!(h.has_start());
}

#[test]
fn handler_tests_no_end() {
    let h = empty_handler();
    assert!(!h.has_end());
}

#[test]
fn handler_tests_with_end() {
    let h = all_re_handler();
    assert!(h.has_end());
}

#[test]
fn handler_tests_is_record_start() {
    let h = all_re_handler();
    assert_re(&h.log_pattern, &["0L0"], &["zzz"]);
}

#[test]
fn handler_tests_is_record_start_default() {
    let h = empty_handler();
    assert_re(&h.log_pattern,
              &["2024-07-01 01:25:47.755 Unexpected error occurred in scheduled task"],
              &["    at org.springframework.orm.jpa.JpaTransactionManager.doBegin(JpaTransactionManager.java:466)"]);
}

#[test]
fn handler_tests_is_record_start_custom() {
    let h = handler_for(Cli { pattern: some("a"), log_pattern: some("GOAT"), ..no_options() });
    assert_re(&h.log_pattern, &["i am a GOAT or something?"], &["definitely only a rabbit"]);
}

#[test]
fn handler_tests_is_start_none() {
    let h = empty_handler();
    assert!(!h.is_start("0S0"));
}

#[test]
fn handler_tests_is_start() {
    let h = all_re_handler();
    assert!(h.is_start("0S0"));
    assert!(!h.is_start("zzz"));
}

#[test]
fn handler_tests_is_end_none() {
    let h = empty_handler();
    assert!(!h.is_end("0E0"));
}

#[test]
fn handler_tests_is_end() {
    let h = all_re_handler();
    assert!(h.is_end("0E0"));
    assert!(!h.is_end("zzz"));
}

#[test]
fn tests_no_start() {
    let h = empty_handler();
    assert!(!h.has_start());
}

#[test]
fn tests_with_start() {
    let h = old_all_re_handler();
    assert!(h.has_start());
}

#[test]
fn tests_no_end() {
    let h = empty_handler();
    assert!(!h.has_end());
}

#[test]
fn tests_with_end() {
    let h = old_all_re_handler();
    assert!(h.has_end());
}

#[test]
fn is_match() {
    let h = old_all_re_handler();
    assert!(h.pattern_set.is_match("0P0"));
    assert!(!h.pattern_set.is_match("zzz"));
    assert!(h.pattern_set.is_match("0Q0"));
    assert!(!h.pattern_set.is_match("zzz"));
    assert!(h.pattern_set.is_match("0R0"));
    assert!(!h.pattern_set.is_match("zzz"));
}

#[test]
fn tests_is_record_start() {
    let h = old_all_re_handler();
    assert!(h.log_pattern.is_match("0T0"));
    assert!(!h.log_pattern.is_match("zzz"));
}

#[test]
fn tests_is_record_start_default() {
    let h = empty_handler();
    assert!(h
        .log_pattern
        .is_match("2024-07-01 01:25:47.755 Unexpected error occurred in scheduled task"));
    assert!(!h.log_pattern.is_match("    at org.springframework.orm.jpa.JpaTransactionManager.doBegin(JpaTransactionManager.java:466)"));
}

#[test]
fn tests_is_record_start_custom() {
    let h = handler_for(Cli { pattern: some("a"), log_pattern: some("GOAT"), ..no_options() });
    assert!(h.log_pattern.is_match("i am a GOAT or something?"));
    assert!(!h.log_pattern.is_match("definitely only a rabbit"));
}

#[test]
fn tests_is_start_none() {
    let h = empty_handler();
    assert!(!h.is_start("0S0"));
}

#[test]
fn tests_is_start() {
    let h = old_all_re_handler();
    assert!(h.is_start("0S0"));
    assert!(!h.is_start("zzz"));
}

#[test]
fn tests_is_end_none() {
    let h = empty_handler();
    assert!(!h.is_end("0E0"));
}

#[test]
fn tests_is_end() {
    let h = old_all_re_handler();
    assert!(h.is_end("0E0"));
    assert!(!h.is_end("zzz"));
}

#[test]
fn max_reached() {
    let h = handler_for(Cli { pattern: some("a"), max_count: Some(2), ..no_options() });
    assert!(!h.is_max_reached(1));
    assert!(h.is_max_reached(2));
    assert!(h.is_max_reached(3));
    assert!(!empty_handler().is_max_reached(usize::MAX));
    assert!(handler_for(Cli { pattern: some("a"), quiet: true, ..no_options() }).is_max_reached(0));
}

#[test]
fn colorize_by_mode() {
    let with = |color| handler_for(Cli { pattern: some("a"), color, ..no_options() });
    assert!(with(ColorChoice::Auto).colorize(true));
    assert!(!with(ColorChoice::Auto).colorize(false));
    assert!(with(ColorChoice::Always).colorize(false));
    assert!(!with(ColorChoice::Never).colorize(true));
}

// ---- searching a file

#[test]
fn handler_tests_app_log_for_error() {
    let handler = handler_for(Cli { pattern: some(r"(?i)error"), ..no_options() });
    let mac = MatchesAndCount::run(&handler, &app_log());
    assert_eq!(vec![RECORD_WITH_TRACE, RECORD_COMPLETE,], mac.records);
}

#[test]
fn app_log_for_not_error() {
    let handler =
        handler_for(Cli { pattern: some(r"(?i)error"), invert_match: true, ..no_options() });
    let mac = MatchesAndCount::run(&handler, &app_log());
    assert_eq!(vec![RECORD_DRAINING, RECORD_UNRELATED,], mac.records);
}

#[test]
fn handler_tests_app_log_for_transaction() {
    let handler = handler_for(Cli { pattern: some(r"startTransaction"), ..no_options() });
    let mac = MatchesAndCount::run(&handler, &app_log());
    assert_eq!(vec![RECORD_WITH_TRACE], mac.records);
}

#[test]
fn handler_tests_simple_process_file() {
    let handler =
        handler_for(Cli { pattern: some(r"t"), log_pattern: some(r"."), ..no_options() });
    let mac = MatchesAndCount::run(
        &handler,
        "line one
line two
third line
line 4
",
    );
    assert_eq!(vec!["line two\n", "third line\n"], mac.records);
}

#[test]
fn handler_tests_app_log_start() {
    let handler = handler_for(Cli {
        pattern: some(r"(?i)error"),
        start: some(r"QueueProcessor"), // middle of the trace
        ..no_options()
    });
    let mac = MatchesAndCount::run(&handler, &app_log());
    assert_eq!(vec![RECORD_WITH_TRACE, RECORD_COMPLETE], mac.records);
}

#[test]
fn handler_tests_app_log_end() {
    let handler = handler_for(Cli {
        pattern: some(r"(?i)queue"),
        end: some("QueueProcessor"),
        ..no_options()
    });
    let mac = MatchesAndCount::run(&handler, &app_log());
    assert_eq!(vec![RECORD_DRAINING], mac.records);
}

#[test]
fn handler_tests_app_log_final_line() {
    let handler = handler_for(Cli { pattern: some(r"unrelated"), ..no_options() });
    let mac = MatchesAndCount::run(&handler, &app_log());
    assert_eq!(vec![RECORD_UNRELATED], mac.records);
}

#[test]
fn display_name_for_named_file() {
    let handler = empty_handler();
    assert_eq!("spiffy.log", handler.display_name_for_filename("spiffy.log"))
}

#[test]
fn display_name_for_stdin() {
    let handler = empty_handler();
    assert_eq!("(standard input)", handler.display_name_for_filename("-"))
}

#[test]
fn display_name_for_labeled_stdin() {
    let handler = handler_for(Cli { pattern: some("a"), label: some("Johann"), ..no_options() });
    assert_eq!("Johann", handler.display_name_for_filename("-"))
}

#[test]
fn handler_tests_filenames_singleline_records() {
    let handler = handler_for(Cli {
        pattern: some(r"o"),
        log_pattern: some(r"."),
        filename: true,
        ..no_options()
    });
    let mac = MatchesAndCount::run_with_filename(
        &handler,
        "spiffy.txt",
        "one
two
three
four",
    );
    // the last line of the input has no terminator, and gets none
    assert_eq!(vec!["spiffy.txt:one\n", "spiffy.txt:two\n", "spiffy.txt:four",], mac.records);
    assert_eq!(3, mac.flush_count);
    assert_eq!(Some(Exit::Match), mac.exit);
}

#[test]
fn handler_tests_filenames_multiline_records() {
    let handler = handler_for(Cli {
        pattern: some(r"r"),
        log_pattern: some(r"e"),
        filename: true,
        line_number: true,
        ..no_options()
    });
    let mac = MatchesAndCount::run_with_filename(
        &handler,
        "spiffy.txt",
        "one
two
three
four",
    );
    assert_eq!(vec!["spiffy.txt:3:three\nspiffy.txt-4-four"], mac.records);
    assert_eq!(1, mac.flush_count);
    assert_eq!(Some(Exit::Match), mac.exit);
}

#[test]
fn colors() {
    let handler = handler_for(Cli {
        pattern: some(r"r"),
        log_pattern: some(r"e"),
        filename: true,
        line_number: true,
        color: ColorChoice::Always,
        ..no_options()
    });
    let mac = MatchesAndCount::run_with_filename(
        &handler,
        "spiffy.txt",
        "one
two
three
four'n'stuff",
    );
    assert_eq!(
        vec![
        "\u{1b}[35mspiffy.txt\u{1b}[0m\u{1b}[36m:\u{1b}[0m\u{1b}[32m3\u{1b}[0m\u{1b}[36m:\u{1b}[0mth\u{1b}[1m\u{1b}[31mr\u{1b}[0mee
\u{1b}[35mspiffy.txt\u{1b}[0m\u{1b}[36m-\u{1b}[0m\u{1b}[32m4\u{1b}[0m\u{1b}[36m-\u{1b}[0mfou\u{1b}[1m\u{1b}[31mr\u{1b}[0m'n'stuff"],
        mac.records
    );
    assert_eq!(1, mac.flush_count);
    assert_eq!(Some(Exit::Match), mac.exit);
}

#[test]
fn color_multiline_match() {
    let handler = handler_for(Cli {
        pattern: some(r"XXX\nYYY"),
        log_pattern: some(r"e"),
        color: ColorChoice::Always,
        ..no_options()
    });
    let mac = MatchesAndCount::run(
        &handler,
        "one
two
threeXXX
YYYfour",
    );
    assert_eq!(
        vec![
            "three\u{1b}[1m\u{1b}[31mXXX\u{1b}[0m
\u{1b}[1m\u{1b}[31mYYY\u{1b}[0mfour"
        ],
        mac.records
    );
    assert_eq!(1, mac.flush_count);
    assert_eq!(Some(Exit::Match), mac.exit);
}

#[test]
fn handler_tests_filenames_final_newline() {
    let handler = handler_for(Cli {
        pattern: some(r"r"),
        log_pattern: some(r"e"),
        filename: true,
        ..no_options()
    });
    let mac = MatchesAndCount::run_with_filename(
        &handler,
        "spiffy.txt",
        "one
two
three
four
",
    );
    assert_eq!(vec!["spiffy.txt:three\nspiffy.txt-four\n"], mac.records);
    assert_eq!(1, mac.flush_count);
    assert_eq!(Some(Exit::Match), mac.exit);
}

#[test]
fn handler_tests_max_count() {
    let handler = handler_for(Cli {
        patterns: vec![r"t".to_owned(), r"u".to_owned()],
        log_pattern: some(r""),
        max_count: Some(2),
        ..no_options()
    });
    let mac = MatchesAndCount::run(
        &handler,
        "one
two
three
four
",
    );
    assert_eq!(vec!["two\n", "three\n"], mac.records);
}

#[test]
fn handler_tests_before_first_log_record() {
    let handler =
        handler_for(Cli { pattern: some(r"ee"), log_pattern: some(r"LOG"), ..no_options() });
    // before the first log record boundary, treat every line as its own record
    let mac = MatchesAndCount::run(
        &handler,
        "one, thee father
two, thee mother
egads, bad dad!
LOG: three
four
LOG: five
six
",
    );
    assert_eq!(
        vec!["one, thee father\n", "two, thee mother\n", "LOG: three\nfour\n",],
        mac.records
    );
    assert_eq!(3, mac.flush_count);
    assert_eq!(Some(Exit::Match), mac.exit);
}

#[test]
fn no_matches() {
    let handler = handler_for(Cli { pattern: some(r"ZZZZZ"), max_count: Some(2), ..no_options() });
    let mac = MatchesAndCount::run(&handler, "input");
    assert!(mac.records.is_empty());
    assert_eq!(0, mac.flush_count);
    assert_eq!(Some(Exit::NoMatch), mac.exit);
}

#[test]
fn counts_zero() {
    let handler = handler_for(Cli { count: true, pattern: some(r"ZZZZ"), ..no_options() });
    let mac = MatchesAndCount::run(
        &handler,
        "one
two
three
four
",
    );
    assert_eq!("0\n", mac.to_string());
    assert_eq!(Some(Exit::NoMatch), mac.exit);
}

#[test]
fn counts_zero_file() {
    let handler =
        handler_for(Cli { count: true, pattern: some(r"ZZZZ"), filename: true, ..no_options() });
    let mac = MatchesAndCount::run_with_filename(
        &handler,
        "sally.txt",
        "one
two
three
four
",
    );
    assert_eq!("sally.txt:0\n", mac.to_string());
    assert_eq!(Some(Exit::NoMatch), mac.exit);
}

#[test]
fn counts_some() {
    let handler = handler_for(Cli { count: true, pattern: some(r"r"), ..no_options() });
    let mac = MatchesAndCount::run(
        &handler,
        "one
two
three
four
",
    );
    assert_eq!("2\n", mac.to_string());
    assert_eq!(Some(Exit::Match), mac.exit);
}

#[test]
fn counts_some_max() {
    let handler =
        handler_for(Cli { count: true, pattern: some(r"e"), max_count: Some(1), ..no_options() });
    let mac = MatchesAndCount::run(
        &handler,
        "one
two
three
four
",
    );
    assert_eq!("1\n", mac.to_string());
    assert_eq!(Some(Exit::Match), mac.exit);
}

#[test]
fn counts_some_unreached_max() {
    let handler = handler_for(Cli {
        count: true,
        pattern: some(r"e"),
        max_count: Some(99999),
        ..no_options()
    });
    let mac = MatchesAndCount::run(
        &handler,
        "one
two
three
four
",
    );
    assert_eq!("2\n", mac.to_string());
    assert_eq!(Some(Exit::Match), mac.exit);
}

#[test]
fn quiet_match() {
    let handler = handler_for(Cli { pattern: some("a"), quiet: true, ..no_options() });
    let mac = MatchesAndCount::run(&handler, "aleph\nbob\ncow\ndavid");
    assert_eq!("", mac.to_string());
    assert_eq!(Some(Exit::Match), mac.exit);
}

#[test]
fn quiet_no_match() {
    let handler = handler_for(Cli { pattern: some("a"), quiet: true, ..no_options() });
    let mac = MatchesAndCount::run(&handler, "bob\ncow");
    assert_eq!("", mac.to_string());
    assert_eq!(Some(Exit::NoMatch), mac.exit);
}

// ---- the same searches, with the patterns given by option

#[test]
fn tests_app_log_for_error() {
    let handler = handler_for(Cli { patterns: vec![r"(?i)error".to_owned()], ..no_options() });
    let mac = MatchesAndCount::run(&handler, &app_log());
    assert_eq!(
        vec![
            RECORD_WITH_TRACE,
            "2024-07-01 01:25:47.790 queue draining complete (ERROR)\n"
        ],
        mac.records
    );
}

#[test]
fn tests_app_log_for_transaction() {
    let handler =
        handler_for(Cli { patterns: vec![r"startTransaction".to_owned()], ..no_options() });
    let mac = MatchesAndCount::run(&handler, &app_log());
    assert_eq!(vec![RECORD_WITH_TRACE], mac.records);
}

#[test]
fn tests_simple_process_file() {
    let handler = handler_for(Cli {
        patterns: vec![r"t".to_owned()],
        log_pattern: some(r"."),
        ..no_options()
    });
    let mac = MatchesAndCount::run(
        &handler,
        "line one
line two
third line
line 4
",
    );
    assert_eq!(vec!["line two\n", "third line\n"], mac.records);
}

#[test]
fn tests_app_log_start() {
    let handler = handler_for(Cli {
        patterns: vec![r"(?i)error".to_owned()],
        start: some(r"QueueProcessor"), // middle of the trace
        ..no_options()
    });
    let mac = MatchesAndCount::run(&handler, &app_log());
    assert_eq!(
        vec![
            RECORD_WITH_TRACE,
            "2024-07-01 01:25:47.790 queue draining complete (ERROR)\n"
        ],
        mac.records
    );
}

#[test]
fn tests_app_log_end() {
    let handler = handler_for(Cli {
        patterns: vec![r"(?i)queue".to_owned()],
        end: some(r"QueueProcessor"),
        ..no_options()
    });
    let mac = MatchesAndCount::run(&handler, &app_log());
    assert_eq!(vec!["2024-07-01 01:25:46.123 draining queue\n"], mac.records);
}

#[test]
fn tests_app_log_final_line() {
    let handler = handler_for(Cli { patterns: vec![r"unrelated".to_owned()], ..no_options() });
    let mac = MatchesAndCount::run(&handler, &app_log());
    assert_eq!(
        vec!["2024-07-01 01:25:48.000 some other unrelated log message\n"],
        mac.records
    );
}

#[test]
fn tests_filenames_singleline_records() {
    let handler = handler_for(Cli {
        patterns: vec![r"o".to_owned()],
        log_pattern: some(r"."),
        filename: true,
        ..no_options()
    });
    let mac = MatchesAndCount::run_with_filename(
        &handler,
        "spiffy.txt",
        "one
two
three
four",
    );
    assert_eq!("spiffy.txt:one\nspiffy.txt:two\nspiffy.txt:four", mac.to_string());
}

#[test]
fn tests_filenames_multiline_records() {
    let handler = handler_for(Cli {
        patterns: vec![r"r".to_owned()],
        log_pattern: some(r"e"),
        filename: true,
        ..no_options()
    });
    let mac = MatchesAndCount::run_with_filename(
        &handler,
        "spiffy.txt",
        "one
two
three
four",
    );
    assert_eq!("spiffy.txt:three\nspiffy.txt-four", mac.to_string());
}

#[test]
fn tests_filenames_final_newline() {
    let handler = handler_for(Cli {
        patterns: vec![r"r".to_owned()],
        log_pattern: some(r"e"),
        filename: true,
        ..no_options()
    });
    let mac = MatchesAndCount::run_with_filename(
        &handler,
        "spiffy.txt",
        "one
two
three
four
",
    );
    assert_eq!("spiffy.txt:three\nspiffy.txt-four\n", mac.to_string());
}

#[test]
fn tests_max_count() {
    let handler = handler_for(Cli {
        patterns: vec![r"t".to_owned(), r"u".to_owned()],
        log_pattern: some(r""),
        max_count: Some(2),
        ..no_options()
    });
    let mac = MatchesAndCount::run(
        &handler,
        "one
two
three
four
",
    );
    assert_eq!(vec!["two\n", "three\n"], mac.records);
}
