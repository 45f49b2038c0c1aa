use clitools::wc::{count, shown_counts, FileInfo, Shown};

#[test]
fn test_count() {
    let text = "I don't want the world. I just want your half.\r\n";
    let info = count(text.as_bytes());
    let expected = FileInfo {
        num_lines: 1,
        num_words: 10,
        num_chars: 48,
        num_bytes: 48,
    };
    assert_eq!(info, expected);
}

#[test]
fn count_of_nothing() {
    assert_eq!(
        count(b""),
        FileInfo { num_lines: 0, num_words: 0, num_bytes: 0, num_chars: 0 }
    );
}

#[test]
fn count_of_text_beyond_ascii() {
    let text = "Öne line, four wordś.\n";
    assert_eq!(
        count(text.as_bytes()),
        FileInfo { num_lines: 1, num_words: 4, num_bytes: 24, num_chars: 22 }
    );
}

#[test]
fn count_of_a_last_line_without_newline() {
    assert_eq!(
        count(b"a b\nc"),
        FileInfo { num_lines: 2, num_words: 3, num_bytes: 5, num_chars: 5 }
    );
}

#[test]
fn count_takes_runs_of_separators_as_one() {
    assert_eq!(
        count(b"  a \t\t b\r\n\n\x0b\x0c c  "),
        FileInfo { num_lines: 3, num_words: 3, num_bytes: 17, num_chars: 17 }
    );
}

#[test]
fn lines_words_and_bytes_are_shown_where_nothing_is_asked_for() {
    let none = Shown { lines: false, words: false, bytes: false, chars: false };
    assert_eq!(
        shown_counts(none),
        Shown { lines: true, words: true, bytes: true, chars: false }
    );
    for asked in [
        Shown { lines: true, words: false, bytes: false, chars: false },
        Shown { lines: false, words: true, bytes: false, chars: false },
        Shown { lines: false, words: false, bytes: true, chars: false },
        Shown { lines: false, words: false, bytes: false, chars: true },
        Shown { lines: true, words: true, bytes: false, chars: true },
    ] {
        assert_eq!(shown_counts(asked), asked);
    }
}
