use grep::matching::Flags;
use grep::search::GrepError;
use grep::{collect_contents, do_the_thing, grep, grep_reads, matches_line, split_lines};

fn one_file(contents: &str) -> Vec<(String, String)> {
    vec![("input".to_string(), contents.to_string())]
}

fn strings(v: &[&str]) -> Vec<String> {
    v.iter().map(|s| s.to_string()).collect()
}

#[test]
fn parses_known_flags() {
    let f = Flags::new(&["-n", "--case-insensitive", "-v", "-x", "-l"]);
    assert!(f.line_number);
    assert!(f.case_insensitive);
    assert!(f.invert_match);
    assert!(f.entire_line);
    assert!(f.file_name);
}

#[test]
fn no_tokens_sets_nothing() {
    let f = Flags::new(&[]);
    assert!(!f.line_number);
    assert!(!f.case_insensitive);
    assert!(!f.invert_match);
    assert!(!f.entire_line);
    assert!(!f.file_name);
}

#[test]
fn ignores_unknown_tokens() {
    let f = Flags::new(&["--bogus", "-z", "pattern"]);
    assert_eq!(f, Flags::new(&[]));
}

#[test]
fn finds_all_containing_lines() {
    let r = grep("foo", &Flags::new(&[]), &one_file("foo\nbar\nfoobar\n"));
    assert_eq!(r, Ok(strings(&["foo", "foobar"])));
}

#[test]
fn entire_line_keeps_exact_lines_only() {
    let r = grep("foo", &Flags::new(&["-x"]), &one_file("foo\nbar\nfoobar\n"));
    assert_eq!(r, Ok(strings(&["foo"])));
}

#[test]
fn invert_match_keeps_the_other_lines() {
    let r = grep("foo", &Flags::new(&["-v"]), &one_file("foo\nbar\nfoobar\n"));
    assert_eq!(r, Ok(strings(&["bar"])));
}

#[test]
fn empty_pattern_matches_every_line() {
    let r = grep("", &Flags::new(&[]), &one_file("foo\nbar\nfoobar\n"));
    assert_eq!(r, Ok(strings(&["foo", "bar", "foobar"])));
}

#[test]
fn empty_pattern_inverted_matches_nothing() {
    let r = grep("", &Flags::new(&["-v"]), &one_file("foo\nbar\nfoobar\n"));
    assert_eq!(r, Ok(strings(&[])));
}

#[test]
fn entire_line_with_case_insensitive() {
    // "Hello" equals "hello" as an entire line only when case is ignored.
    let both = grep("hello", &Flags::new(&["-x", "-i"]), &one_file("Hello\n"));
    assert_eq!(both, Ok(strings(&["Hello"])));
    let entire_only = grep("hello", &Flags::new(&["-x"]), &one_file("Hello\n"));
    assert_eq!(entire_only, Ok(strings(&[])));
    // With containment semantics, ignoring case alone already matches.
    let ci_only = grep("hello", &Flags::new(&["-i"]), &one_file("Hello\n"));
    assert_eq!(ci_only, Ok(strings(&["Hello"])));
}

#[test]
fn multiple_files_prefix_file_names() {
    let files = vec![
        ("file1".to_string(), "alpha\n".to_string()),
        ("file2".to_string(), "beta\n".to_string()),
    ];
    let r = grep("lph", &Flags::new(&[]), &files);
    assert_eq!(r, Ok(strings(&["file1:alpha"])));
}

#[test]
fn file_name_flag_prefixes_a_single_file() {
    let r = grep("foo", &Flags::new(&["-l"]), &one_file("foo\nbar\n"));
    assert_eq!(r, Ok(strings(&["input:foo"])));
}

#[test]
fn line_number_flag_prefixes_one_based_numbers() {
    let r = grep("foo", &Flags::new(&["-n"]), &one_file("foo\nbar\nfoobar\n"));
    assert_eq!(r, Ok(strings(&["1:foo", "3:foobar"])));
}

#[test]
fn file_name_and_line_number_combine() {
    let r = grep("foo", &Flags::new(&["-n", "-l"]), &one_file("foo\nbar\nfoobar\n"));
    assert_eq!(r, Ok(strings(&["input:1:foo", "input:3:foobar"])));
}

#[test]
fn line_numbers_reach_two_digits() {
    let contents = "x\n".repeat(12);
    let r = grep("x", &Flags::new(&["-n"]), &one_file(&contents));
    let lines = r.unwrap();
    assert_eq!(lines.len(), 12);
    assert_eq!(lines[9], "10:x");
    assert_eq!(lines[11], "12:x");
}

#[test]
fn no_files_is_an_error() {
    let files: Vec<(String, String)> = vec![];
    let r = grep("foo", &Flags::new(&[]), &files);
    assert_eq!(r, Err(GrepError::NoFilesSpecified));
}

#[test]
fn unreadable_file_aborts_the_whole_search() {
    let reads = vec![
        ("good".to_string(), Some("alpha\n".to_string())),
        ("missing".to_string(), None),
    ];
    let r = grep_reads("a", &Flags::new(&[]), &reads);
    assert_eq!(
        r,
        Err(GrepError::FileReadError { path: "missing".to_string() })
    );
}

#[test]
fn first_unreadable_file_is_named() {
    let reads = vec![
        ("one".to_string(), None),
        ("two".to_string(), None),
    ];
    let r = collect_contents(&reads);
    assert_eq!(r, Err(GrepError::FileReadError { path: "one".to_string() }));
}

#[test]
fn collect_contents_passes_contents_through() {
    let reads = vec![
        ("a".to_string(), Some("1\n".to_string())),
        ("b".to_string(), Some("2\n".to_string())),
    ];
    let r = collect_contents(&reads);
    assert_eq!(
        r,
        Ok(vec![
            ("a".to_string(), "1\n".to_string()),
            ("b".to_string(), "2\n".to_string()),
        ])
    );
}

#[test]
fn grep_reads_searches_readable_files() {
    let reads = vec![("input".to_string(), Some("foo\nbar\n".to_string()))];
    let r = grep_reads("bar", &Flags::new(&[]), &reads);
    assert_eq!(r, Ok(strings(&["bar"])));
}

#[test]
fn trailing_newline_opens_no_phantom_line() {
    let with_nl = grep("", &Flags::new(&[]), &one_file("foo\n"));
    assert_eq!(with_nl, Ok(strings(&["foo"])));
    let without_nl = grep("", &Flags::new(&[]), &one_file("foo"));
    assert_eq!(without_nl, Ok(strings(&["foo"])));
    let empty = grep("", &Flags::new(&[]), &one_file(""));
    assert_eq!(empty, Ok(strings(&[])));
}

#[test]
fn blank_lines_are_lines() {
    let r = grep("", &Flags::new(&[]), &one_file("a\n\nb\n"));
    assert_eq!(r, Ok(strings(&["a", "", "b"])));
}

#[test]
fn no_match_is_an_empty_result_not_an_error() {
    let r = grep("zzz", &Flags::new(&[]), &one_file("foo\nbar\n"));
    assert_eq!(r, Ok(strings(&[])));
}

#[test]
fn do_the_thing_keeps_containing_lines() {
    let r = do_the_thing("foo\nbar\nfoobar\n".to_string(), "foo");
    assert_eq!(r, Ok(strings(&["foo", "foobar"])));
}

#[test]
fn split_lines_splits_on_newlines() {
    assert_eq!(split_lines("a\nb"), strings(&["a", "b"]));
    assert_eq!(split_lines("a\nb\n"), strings(&["a", "b"]));
    assert_eq!(split_lines("\n"), strings(&[""]));
    assert_eq!(split_lines(""), strings(&[]));
}

#[test]
fn matches_line_follows_the_flags() {
    assert!(matches_line("Hello", "hello", &Flags::new(&["-i"])));
    assert!(!matches_line("Hello", "hello", &Flags::new(&[])));
    assert!(matches_line("Hello there", "hello", &Flags::new(&["-i"])));
    assert!(!matches_line("Hello there", "hello", &Flags::new(&["-i", "-x"])));
    assert!(matches_line("any line", "", &Flags::new(&[])));
}
