use clitools::decimal::{decimal_string, parse_digits, parse_integer};
use clitools::lines::{count_newlines, find_line_offset};
use clitools::text::{append_text, find_byte, skip_ascii, split_text, with_label};

#[test]
fn numbers_written_in_digits_read_back() {
    for n in [0, 1, 9, 10, 11, 99, 100, 4096, 1_000_000, u64::MAX - 1, u64::MAX] {
        let text = decimal_string(n);
        assert_eq!(text, n.to_string());
        assert_eq!(parse_digits(text.as_bytes(), 0, u64::MAX), Some(n));
    }
}

#[test]
fn digits_up_to_a_limit() {
    assert_eq!(parse_digits(b"255", 0, 255), Some(255));
    assert_eq!(parse_digits(b"256", 0, 255), None);
    assert_eq!(parse_digits(b"x255", 1, 255), Some(255));
    assert_eq!(parse_digits(b"255", 3, 255), None);
    assert_eq!(parse_digits(b"", 0, 255), None);
    assert_eq!(parse_digits(b"25x", 0, 255), None);
    assert_eq!(parse_digits(b"0000000000000000000000000255", 0, 255), Some(255));
    assert_eq!(parse_digits(b"18446744073709551615", 0, u64::MAX), Some(u64::MAX));
    assert_eq!(parse_digits(b"18446744073709551616", 0, u64::MAX), None);
    assert_eq!(parse_digits(b"99999999999999999999999999999999999999999", 0, u64::MAX), None);
}

#[test]
fn integers_between_bounds() {
    assert_eq!(parse_integer(b"-128", true, 128, 127), Some(-128));
    assert_eq!(parse_integer(b"-129", true, 128, 127), None);
    assert_eq!(parse_integer(b"127", true, 128, 127), Some(127));
    assert_eq!(parse_integer(b"+127", true, 128, 127), Some(127));
    assert_eq!(parse_integer(b"128", true, 128, 127), None);
    assert_eq!(parse_integer(b"-0", true, 128, 127), Some(0));
    assert_eq!(parse_integer(b"-0", false, 0, 255), None);
    assert_eq!(parse_integer(b"+0", false, 0, 255), Some(0));
    assert_eq!(parse_integer(b"-", true, 128, 127), None);
    assert_eq!(parse_integer(b"+", true, 128, 127), None);
    assert_eq!(
        parse_integer(b"-18446744073709551615", true, u64::MAX, 0),
        Some(-(u64::MAX as i128))
    );
}

#[test]
fn scanning_for_a_byte() {
    assert_eq!(find_byte(b"a,b", b','), 1);
    assert_eq!(find_byte(b",ab", b','), 0);
    assert_eq!(find_byte(b"ab", b','), 2);
    assert_eq!(find_byte(b"", b','), 0);
    assert_eq!(find_byte(b"a,,b", b','), 1);
}

#[test]
fn newlines_and_line_offsets() {
    let data = b"one\ntwo\n\nfour";
    assert_eq!(count_newlines(data), 3);
    assert_eq!(find_line_offset(data, 0), 0);
    assert_eq!(find_line_offset(data, 1), 4);
    assert_eq!(find_line_offset(data, 2), 8);
    assert_eq!(find_line_offset(data, 3), 9);
    assert_eq!(find_line_offset(data, 4), 13);
    assert_eq!(find_line_offset(data, u64::MAX), 13);
    assert_eq!(find_line_offset(b"", 3), 0);
}

#[test]
fn cutting_text_where_a_character_begins() {
    assert_eq!(split_text("Öne,wordś", 4), ("Öne", ",wordś"));
    assert_eq!(split_text("Öne", 0), ("", "Öne"));
    assert_eq!(split_text("Öne", 4), ("Öne", ""));
    assert_eq!(split_text("Öne", 2), ("Ö", "ne"));
    assert_eq!(skip_ascii(",wordś"), "wordś");
    assert_eq!(skip_ascii(","), "");
    assert_eq!(skip_ascii("\nÖ"), "Ö");
}

#[test]
fn putting_text_together() {
    let mut text = String::from("Ö");
    append_text(&mut text, "ne");
    append_text(&mut text, "");
    append_text(&mut text, " ś");
    assert_eq!(text, "Öne ś");
    assert_eq!(with_label("fox.txt", "No such file"), "fox.txt: No such file");
    assert_eq!(with_label("", ""), ": ");
}
