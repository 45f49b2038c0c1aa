use clitools::grep::{count_line, find_lines, format_result, plan_search, selects, PathKind, Search};
use clitools::pattern::{compile, invalid_pattern_message};
use regex::{Regex, RegexBuilder};

#[test]
fn test_find_lines() {
    let text = "Lorem\nIpsum\r\nDOLOR";
    let re1 = Regex::new("or").unwrap();
    let re2 = RegexBuilder::new("or").case_insensitive(true).build().unwrap();

    let matches = find_lines(text, &re1, false);
    assert_eq!(matches.len(), 1);

    let matches = find_lines(text, &re1, true);
    assert_eq!(matches.len(), 2);

    let matches = find_lines(text, &re2, false);
    assert_eq!(matches.len(), 2);

    let matches = find_lines(text, &re2, true);
    assert_eq!(matches.len(), 1);
}

#[test]
fn found_lines_keep_their_ends() {
    let text = "Lorem\nIpsum\r\nDOLOR";
    let re = compile("pattern", "or", true).unwrap();
    assert_eq!(find_lines(text, &re, false), ["Lorem\n", "DOLOR"]);
    assert_eq!(find_lines(text, &re, true), ["Ipsum\r\n"]);
    let all = compile("pattern", "", false).unwrap();
    assert_eq!(find_lines(text, &all, false), ["Lorem\n", "Ipsum\r\n", "DOLOR"]);
    assert_eq!(find_lines(text, &all, true), Vec::<String>::new());
    assert_eq!(find_lines("", &all, false), Vec::<String>::new());
    assert_eq!(find_lines("\n\n", &all, false), ["\n", "\n"]);
}

#[test]
fn a_pattern_is_tried_on_one_line_at_a_time() {
    let re = compile("pattern", "a\nb", false).unwrap();
    assert_eq!(find_lines("a\nb\n", &re, false), Vec::<String>::new());
    let end = compile("pattern", "a$", false).unwrap();
    assert_eq!(find_lines("a\nba\nab", &end, false), Vec::<String>::new());
    let last = compile("pattern", "b$", false).unwrap();
    assert_eq!(find_lines("a\nba\nab", &last, false), ["ab"]);
}

#[test]
fn lines_beyond_ascii() {
    let re = compile("pattern", "ś", false).unwrap();
    assert_eq!(find_lines("Öne\nwordś\n日本語", &re, false), ["wordś\n"]);
    assert_eq!(find_lines("Öne\nwordś\n日本語", &re, true), ["Öne\n", "日本語"]);
}

#[test]
fn patterns_that_do_not_compile() {
    assert_eq!(compile("pattern", "*foo", false).unwrap_err(), "Invalid pattern \"*foo\"");
    assert_eq!(compile("pattern", "(", true).unwrap_err(), "Invalid pattern \"(\"");
    assert!(compile("pattern", "fo+", false).is_ok());
    let re = compile("pattern", "FOX", true).unwrap();
    assert!(re.is_match("the quick brown fox"));
    let re = compile("pattern", "FOX", false).unwrap();
    assert!(!re.is_match("the quick brown fox"));
}

#[test]
fn inverting_a_match() {
    assert!(selects(true, false));
    assert!(!selects(false, false));
    assert!(!selects(true, true));
    assert!(selects(false, true));
}

#[test]
fn patterns_are_named_in_their_errors() {
    assert_eq!(compile("--name", "[", false).unwrap_err(), "Invalid --name \"[\"");
    assert_eq!(compile("--pattern", "a{", true).unwrap_err(), "Invalid --pattern \"a{\"");
    assert_eq!(invalid_pattern_message("pattern", "x"), "Invalid pattern \"x\"");
}

#[test]
fn results_name_their_file_where_several_are_searched() {
    assert_eq!(format_result("fox.txt", "The quick brown fox\n", 1), "The quick brown fox\n");
    assert_eq!(format_result("fox.txt", "The quick brown fox\n", 0), "The quick brown fox\n");
    assert_eq!(
        format_result("fox.txt", "The quick brown fox\n", 2),
        "fox.txt:The quick brown fox\n"
    );
    assert_eq!(format_result("a", &count_line(3), 5), "a:3\n");
}

#[test]
fn counts_are_written_on_a_line() {
    assert_eq!(count_line(0), "0\n");
    assert_eq!(count_line(10), "10\n");
    assert_eq!(count_line(usize::MAX), format!("{}\n", usize::MAX));
}

#[test]
fn directories_are_searched_only_on_request() {
    assert!(matches!(plan_search("-", PathKind::StandardInput, false), Search::Path));
    assert!(matches!(plan_search("-", PathKind::StandardInput, true), Search::Path));
    assert!(matches!(plan_search("a.txt", PathKind::File, false), Search::Path));
    assert!(matches!(plan_search("a.txt", PathKind::File, true), Search::Path));
    assert!(matches!(plan_search("dir", PathKind::Directory, true), Search::Below));
    assert!(matches!(plan_search("pipe", PathKind::Other, true), Search::Nothing));
    assert!(matches!(plan_search("pipe", PathKind::Other, false), Search::Nothing));
    match plan_search("./tests/inputs", PathKind::Directory, false) {
        Search::Refused(message) => assert_eq!(message, "./tests/inputs is a directory"),
        other => panic!("{:?}", other),
    }
}
