use clitools::fortune::{
    find_files, fortune_text, names_index_file, parse_fortunes, parse_u64, pick_fortune,
    read_fortunes, Fortune,
};

const JOKES: &str = "Q. What do you call a head of lettuce in a shirt and tie?\n\
A. Collared greens.\n\
%\n\
Q: Why did the gardener quit his job?\n\
A: His celery wasn't high enough.\n\
%\n\
Q. Why did the honeydew couple get married in a church?\n\
A. Their parents told them they cantaloupe.\n\
%\n\
Q: What do you call a pig with three eyes?\n\
A: A piiig.\n\
%\n\
Q: Why do cows have hooves?\n\
A: Because they lactose.\n\
%\n\
Q: What do you call a deer wearing an eye patch?\n A: A bad idea (bad-eye deer).\n\
%\n";

const QUOTES: &str = "You cannot achieve the impossible without attempting the absurd.\n\
%\n\
Assumption is the mother of all screw-ups.\n\
%\n\
Neckties strangle clear thinking.\n\
%\n\
A classic is something that everybody wants to have read\n\
and nobody wants to read.\n\
%\n\
Begin at the beginning and go on till you come to the end; then stop.\n\
%\n";

#[test]
fn test_parse_u64() {
    let res = parse_u64("a");
    assert!(res.is_err());
    assert_eq!(res.unwrap_err().to_string(), "\"a\" not a valid integer");

    let res = parse_u64("0");
    assert!(res.is_ok());
    assert_eq!(res.unwrap(), 0);

    let res = parse_u64("4");
    assert!(res.is_ok());
    assert_eq!(res.unwrap(), 4);
}

#[test]
fn test_read_fortunes() {
    let fortunes = read_fortunes(&[("jokes".to_string(), JOKES.to_string())]);
    assert_eq!(fortunes.len(), 6);
    assert_eq!(
        fortunes.first().unwrap().text,
        "Q. What do you call a head of lettuce in a shirt and tie?\nA. Collared greens."
    );
    assert_eq!(
        fortunes.last().unwrap().text,
        "Q: What do you call a deer wearing an eye patch?\n A: A bad idea (bad-eye deer)."
    );

    let fortunes = read_fortunes(&[
        ("jokes".to_string(), JOKES.to_string()),
        ("quotes".to_string(), QUOTES.to_string()),
    ]);
    assert_eq!(fortunes.len(), 11);
}

#[test]
fn test_pick_fortune() {
    let fortunes = &[
        Fortune {
            source: "fortunes".to_string(),
            text: "You cannot achieve the impossible without attempting the absurd.".to_string(),
        },
        Fortune {
            source: "fortunes".to_string(),
            text: "Assumption is the mother of all screw-ups.".to_string(),
        },
        Fortune {
            source: "fortunes".to_string(),
            text: "Neckties strangle clear thinking.".to_string(),
        },
    ];
    assert_eq!(
        pick_fortune(fortunes, Some(1)).unwrap(),
        "Neckties strangle clear thinking.".to_string()
    );
}

#[test]
fn parse_u64_at_the_limits() {
    assert_eq!(parse_u64("18446744073709551615"), Ok(u64::MAX));
    assert_eq!(parse_u64("+5"), Ok(5));
    assert_eq!(
        parse_u64("18446744073709551616"),
        Err("\"18446744073709551616\" not a valid integer".to_string())
    );
    assert_eq!(parse_u64("-1"), Err("\"-1\" not a valid integer".to_string()));
    assert_eq!(parse_u64(""), Err("\"\" not a valid integer".to_string()));
}

fn texts(source: &str, content: &str) -> Vec<String> {
    let fortunes = parse_fortunes(source, content);
    for fortune in &fortunes {
        assert_eq!(fortune.source, source);
    }
    fortunes.into_iter().map(|f| f.text).collect()
}

#[test]
fn fortunes_keep_their_source() {
    let fortunes = read_fortunes(&[
        ("jokes".to_string(), JOKES.to_string()),
        ("quotes".to_string(), QUOTES.to_string()),
    ]);
    let sources: Vec<&str> = fortunes.iter().map(|f| f.source.as_str()).collect();
    assert_eq!(sources[..6], ["jokes"; 6]);
    assert_eq!(sources[6..], ["quotes"; 5]);
    assert_eq!(
        fortunes[9].text,
        "A classic is something that everybody wants to have read\nand nobody wants to read."
    );
}

#[test]
fn lines_after_the_last_separator_are_dropped() {
    assert_eq!(texts("f", "one\n%\ntwo\n"), ["one"]);
    assert_eq!(texts("f", "one\n%\ntwo"), ["one"]);
    assert_eq!(texts("f", "one"), Vec::<String>::new());
    assert_eq!(texts("f", ""), Vec::<String>::new());
}

#[test]
fn separators_after_nothing_complete_nothing() {
    assert_eq!(texts("f", "%\n%\none\n%\n%\n%\ntwo\n%"), ["one", "two"]);
    assert_eq!(texts("f", "%"), Vec::<String>::new());
}

#[test]
fn a_separator_is_a_whole_line() {
    assert_eq!(texts("f", "50%\n%%\n % \n%\n"), ["50%\n%%\n % "]);
    assert_eq!(texts("f", "\n%\n"), [""]);
    assert_eq!(texts("f", "\n\n%\n"), ["\n"]);
}

#[test]
fn carriage_returns_before_newlines_are_dropped() {
    assert_eq!(texts("f", "one\r\ntwo\r\n%\r\n"), ["one\ntwo"]);
    assert_eq!(texts("f", "one\r\r\n%\n"), ["one\r"]);
    assert_eq!(texts("f", "o\rne\n%\n"), ["o\rne"]);
    assert_eq!(texts("f", "one\n%\r"), Vec::<String>::new());
}

#[test]
fn fortunes_beyond_ascii() {
    assert_eq!(texts("f", "Öne\nwordś\n%\n"), ["Öne\nwordś"]);
    assert_eq!(texts("f", "日本語\r\n%\n"), ["日本語"]);
}

#[test]
fn nothing_is_picked_from_nothing() {
    assert_eq!(pick_fortune(&[], Some(1)), None);
    assert_eq!(pick_fortune(&[], None), None);
    assert_eq!(fortune_text(None), None);
}

#[test]
fn a_seed_always_picks_the_same() {
    let fortunes: Vec<Fortune> = (0..50)
        .map(|i| Fortune { source: "s".to_string(), text: format!("fortune {}", i) })
        .collect();
    for seed in [0, 1, 2, 42, u64::MAX] {
        let first = pick_fortune(&fortunes, Some(seed)).unwrap();
        assert_eq!(pick_fortune(&fortunes, Some(seed)), Some(first.clone()));
        assert!(fortunes.iter().any(|f| f.text == first));
    }
}

#[test]
fn a_pick_without_seed_is_one_of_the_fortunes() {
    let fortunes: Vec<Fortune> = (0..5)
        .map(|i| Fortune { source: "s".to_string(), text: format!("fortune {}", i) })
        .collect();
    for _ in 0..20 {
        let picked = pick_fortune(&fortunes, None).unwrap();
        assert!(fortunes.iter().any(|f| f.text == picked));
    }
    let only = [Fortune { source: "s".to_string(), text: "alone".to_string() }];
    assert_eq!(pick_fortune(&only, None), Some("alone".to_string()));
    assert_eq!(fortune_text(Some(&only[0])), Some("alone".to_string()));
}

fn walked(paths: &[&str]) -> Vec<String> {
    paths.iter().map(|p| p.to_string()).collect()
}

#[test]
fn test_find_files() {
    let files = find_files(&walked(&["./tests/inputs/jokes"]));
    assert_eq!(files.len(), 1);
    assert_eq!(files.get(0).unwrap(), "./tests/inputs/jokes");

    let files = find_files(&walked(&[
        "./tests/inputs/literature.dat",
        "./tests/inputs/quotes",
        "./tests/inputs/jokes.dat",
        "./tests/inputs/empty/.gitkeep",
        "./tests/inputs/jokes",
        "./tests/inputs/ascii-art.dat",
        "./tests/inputs/literature",
        "./tests/inputs/quotes.dat",
        "./tests/inputs/ascii-art",
    ]));
    assert_eq!(files.len(), 5);
    let first = files.get(0).unwrap();
    assert!(first.contains("ascii-art"));
    let last = files.last().unwrap();
    assert!(last.contains("quotes"));

    let files = find_files(&walked(&[
        "./tests/inputs/jokes",
        "./tests/inputs/ascii-art",
        "./tests/inputs/jokes",
    ]));
    assert_eq!(files.len(), 2);
    assert_eq!(files.first().unwrap(), "./tests/inputs/ascii-art");
    assert_eq!(files.last().unwrap(), "./tests/inputs/jokes");
}

#[test]
fn found_files_are_in_order_and_single() {
    let files = find_files(&walked(&["b", "a", "c", "a", "ab", "", "B", "b", "é", "a/b", "a-b"]));
    assert_eq!(files, ["", "B", "a", "a-b", "a/b", "ab", "b", "c", "é"]);
    assert_eq!(find_files(&[]), Vec::<String>::new());
}

#[test]
fn index_files_hold_no_fortunes() {
    for path in ["jokes.dat", "./inputs/jokes.dat", "a.dat", "..dat", "x.tar.dat", "dir.dat/q.dat"] {
        assert!(names_index_file(path), "{:?}", path);
    }
    for path in [
        "jokes", ".dat", "dir/.dat", "dat", "a.data", "a.DAT", "a.dat.txt", "dir.dat/quotes", "",
        "a.dat/",
    ] {
        assert!(!names_index_file(path), "{:?}", path);
    }
    assert_eq!(
        find_files(&walked(&["q/jokes.dat", "q/jokes", "q/.dat"])),
        ["q/.dat", "q/jokes"]
    );
}
