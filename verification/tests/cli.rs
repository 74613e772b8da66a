use lgrep::cli::{Cli, ColorChoice};

fn empty_options() -> Cli {
    Cli {
        pattern: None,
        files: vec![],
        patterns: vec![],
        ignore_case: false,
        max_count: None,
        invert_match: false,
        count: false,
        label: None,
        color: ColorChoice::Auto,
        log_pattern: None,
        start: None,
        end: None,
        filename: false,
        no_filename: false,
        line_number: false,
        quiet: false,
        help: false,
    }
}

/// The options as the argument parser fills them in: what follows `-e` is
/// a pattern given by option, the first other argument is the positional
/// pattern, and the rest are files.
fn options(command_line: &str) -> Cli {
    let mut cli = empty_options();
    let mut words = command_line.split_whitespace().skip(1);
    while let Some(word) = words.next() {
        if word == "-e" {
            cli.patterns.push(words.next().unwrap().to_owned());
        } else if cli.pattern.is_none() {
            cli.pattern = Some(word.to_owned());
        } else {
            cli.files.push(word.to_owned());
        }
    }
    cli.like_grep()
}

fn assert_patterns(left: Vec<&str>, right: &Vec<String>) {
    assert_eq!(left, right.iter().map(|p| p.as_str()).collect::<Vec<_>>());
}

fn assert_files(left: Vec<&str>, right: &Vec<String>) {
    assert_eq!(left, right.iter().map(|p| p.as_str()).collect::<Vec<_>>());
}

#[test]
fn no_patterns() {
    let cli = empty_options();
    assert!(!cli.has_patterns());
}

#[test]
fn implicit_pattern() {
    let cli = Cli { pattern: Some(".".to_owned()), ..empty_options() };
    assert!(cli.has_patterns());
}

#[test]
fn explicit_patterns() {
    let cli = Cli { patterns: vec![".".to_owned()], ..empty_options() };
    assert!(cli.has_patterns());
}

#[test]
fn no_match_no_patterns() {
    let cli = empty_options();
    assert!(!cli.has_patterns());
}

#[test]
fn like_grep_1() {
    let cli = options("lgrep -e Cli -");
    assert_eq!(None, cli.pattern);
    assert_patterns(vec!["Cli"], &cli.patterns);
    assert!(cli.has_patterns());
    assert_files(vec!["-"], &cli.files);
}

#[test]
fn like_grep_2() {
    let cli = options("lgrep -e Cli");
    assert_eq!(None, cli.pattern);
    assert_patterns(vec!["Cli"], &cli.patterns);
    assert!(cli.has_patterns());
    assert_files(vec![], &cli.files);
}

#[test]
fn like_grep_3() {
    let cli = options("lgrep Cli -");
    assert_eq!(Some("Cli".to_owned()), cli.pattern);
    assert_patterns(vec![], &cli.patterns);
    assert!(cli.has_patterns());
    assert_files(vec!["-"], &cli.files);
}

#[test]
fn like_grep_4() {
    let cli = options("lgrep Cli");
    assert_eq!(Some("Cli".to_owned()), cli.pattern);
    assert_patterns(vec![], &cli.patterns);
    assert!(cli.has_patterns());
    assert_files(vec![], &cli.files);
}

#[test]
fn like_grep_5() {
    let cli = options("lgrep -e Cli -e H src/handler.rs");
    assert_eq!(None, cli.pattern);
    assert_patterns(vec!["Cli", "H"], &cli.patterns);
    assert!(cli.has_patterns());
    assert_files(vec!["src/handler.rs"], &cli.files);
}

#[test]
fn like_grep_6_1() {
    let cli = options("lgrep -e Cli H src/handler.rs");
    assert_eq!(None, cli.pattern);
    assert_patterns(vec!["Cli"], &cli.patterns);
    assert!(cli.has_patterns());
    assert_files(vec!["H", "src/handler.rs"], &cli.files);
}

#[test]
fn like_grep_6_2() {
    let cli = options("lgrep H -e Cli src/handler.rs");
    assert_eq!(None, cli.pattern);
    assert_patterns(vec!["Cli"], &cli.patterns);
    assert!(cli.has_patterns());
    assert_files(vec!["H", "src/handler.rs"], &cli.files);
}

#[test]
fn like_grep_7() {
    let cli = options("lgrep -e Cli src/cli.rs src/handler.rs");
    assert_eq!(None, cli.pattern);
    assert_patterns(vec!["Cli"], &cli.patterns);
    assert!(cli.has_patterns());
    assert_files(vec!["src/cli.rs", "src/handler.rs"], &cli.files);
}

#[test]
fn like_grep_8() {
    let cli = options("lgrep -e Cli src/handler.rs");
    assert_eq!(None, cli.pattern);
    assert_patterns(vec!["Cli"], &cli.patterns);
    assert!(cli.has_patterns());
    assert_files(vec!["src/handler.rs"], &cli.files);
}

#[test]
fn like_grep_9() {
    let cli = options("lgrep Cli H src/handler.rs");
    assert_eq!(Some("Cli".to_owned()), cli.pattern);
    assert_patterns(vec![], &cli.patterns);
    assert!(cli.has_patterns());
    assert_files(vec!["H", "src/handler.rs"], &cli.files);
}

#[test]
fn like_grep_10() {
    let cli = options("lgrep Cli src/cli.rs src/handler.rs");
    assert_eq!(Some("Cli".to_owned()), cli.pattern);
    assert_patterns(vec![], &cli.patterns);
    assert!(cli.has_patterns());
    assert_files(vec!["src/cli.rs", "src/handler.rs"], &cli.files);
}

#[test]
fn like_grep_11() {
    let cli = options("lgrep Cli src/handler.rs");
    assert_eq!(Some("Cli".to_owned()), cli.pattern);
    assert_patterns(vec![], &cli.patterns);
    assert!(cli.has_patterns());
    assert_files(vec!["src/handler.rs"], &cli.files);
}

#[test]
fn like_grep_keeps_everything_else() {
    let cli = Cli {
        pattern: Some("file".to_owned()),
        patterns: vec!["p".to_owned()],
        files: vec!["other".to_owned()],
        ignore_case: true,
        max_count: Some(3),
        label: Some("in".to_owned()),
        color: ColorChoice::Never,
        start: Some("S".to_owned()),
        quiet: true,
        ..empty_options()
    }
    .like_grep();
    assert_files(vec!["file", "other"], &cli.files);
    assert!(cli.ignore_case && cli.quiet);
    assert_eq!(Some(3), cli.max_count);
    assert_eq!(Some("in".to_owned()), cli.label);
    assert_eq!(ColorChoice::Never, cli.color);
    assert_eq!(Some("S".to_owned()), cli.start);
}
