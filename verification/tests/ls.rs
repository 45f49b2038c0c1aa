use clitools::ls::{
    find_files, format_mode, format_output, is_listed, mk_triple, owner_name, Listing,
    LongEntry, Owner,
};

#[test]
fn test_format_mode() {
    assert_eq!(format_mode(0o755), "rwxr-xr-x");
    assert_eq!(format_mode(0o421), "r---w---x");
}

#[test]
fn test_mk_triple() {
    assert_eq!(mk_triple(0o751, Owner::User), "rwx");
    assert_eq!(mk_triple(0o751, Owner::Group), "r-x");
    assert_eq!(mk_triple(0o751, Owner::Other), "--x");
    assert_eq!(mk_triple(0o600, Owner::Other), "---");
}

#[test]
fn format_mode_ignores_other_bits() {
    assert_eq!(format_mode(0), "---------");
    assert_eq!(format_mode(0o777), "rwxrwxrwx");
    assert_eq!(format_mode(0o100644), "rw-r--r--");
    assert_eq!(format_mode(0o40755), "rwxr-xr-x");
    assert_eq!(format_mode(u32::MAX), "rwxrwxrwx");
}

#[test]
fn masks_of_each_owner() {
    assert_eq!(Owner::User.masks(), [0o400, 0o200, 0o100]);
    assert_eq!(Owner::Group.masks(), [0o040, 0o020, 0o010]);
    assert_eq!(Owner::Other.masks(), [0o004, 0o002, 0o001]);
}

#[test]
fn hidden_entries_are_listed_on_request() {
    assert!(is_listed("fox.txt", false));
    assert!(is_listed("fox.txt", true));
    assert!(!is_listed(".hidden", false));
    assert!(is_listed(".hidden", true));
    assert!(is_listed("", false));
    assert!(is_listed("a.b", false));
    assert!(!is_listed("tests/inputs/.hidden", false));
    assert!(is_listed("tests/inputs/.hidden", true));
    assert!(is_listed("tests/.inputs/fox.txt", false));
    assert!(is_listed("./fox.txt", false));
    assert!(is_listed("dir/", false));
    assert!(!is_listed(".", false));
}

fn inputs() -> Listing {
    Listing::Directory(vec![
        "tests/inputs/fox.txt".to_string(),
        "tests/inputs/.hidden".to_string(),
        "tests/inputs/dir".to_string(),
        "tests/inputs/bustle.txt".to_string(),
        "tests/inputs/empty.txt".to_string(),
    ])
}

#[test]
fn lib_test_find_files() {
    let res = find_files(&[("tests/inputs".to_string(), inputs())], false);
    assert!(res.errors.is_empty());
    let mut filenames = res.files;
    filenames.sort();
    assert_eq!(
        filenames,
        [
            "tests/inputs/bustle.txt",
            "tests/inputs/dir",
            "tests/inputs/empty.txt",
            "tests/inputs/fox.txt"
        ]
    );

    let res = find_files(&[("tests/inputs/.hidden".to_string(), Listing::File)], false);
    assert!(res.errors.is_empty());
    assert_eq!(res.files, ["tests/inputs/.hidden"]);

    let res = find_files(
        &[
            ("tests/inputs/bustle.txt".to_string(), Listing::File),
            (
                "tests/inputs/dir".to_string(),
                Listing::Directory(vec!["tests/inputs/dir/spiders.txt".to_string()]),
            ),
        ],
        false,
    );
    assert!(res.errors.is_empty());
    let mut filenames = res.files;
    filenames.sort();
    assert_eq!(filenames, ["tests/inputs/bustle.txt", "tests/inputs/dir/spiders.txt"]);
}

#[test]
fn test_find_files_hidden() {
    let res = find_files(&[("tests/inputs".to_string(), inputs())], true);
    assert!(res.errors.is_empty());
    let mut filenames = res.files;
    filenames.sort();
    assert_eq!(
        filenames,
        [
            "tests/inputs/.hidden",
            "tests/inputs/bustle.txt",
            "tests/inputs/dir",
            "tests/inputs/empty.txt",
            "tests/inputs/fox.txt"
        ]
    );
}

#[test]
fn found_files_keep_their_order() {
    let res = find_files(
        &[
            ("b".to_string(), Listing::File),
            ("gone".to_string(), Listing::Missing("No such file or directory".to_string())),
            ("tests/inputs".to_string(), inputs()),
            ("a".to_string(), Listing::File),
            ("none".to_string(), Listing::Missing("Permission denied".to_string())),
            ("empty".to_string(), Listing::Directory(vec![])),
        ],
        false,
    );
    assert_eq!(
        res.files,
        [
            "b",
            "tests/inputs/fox.txt",
            "tests/inputs/dir",
            "tests/inputs/bustle.txt",
            "tests/inputs/empty.txt",
            "a"
        ]
    );
    assert_eq!(res.errors, ["gone: No such file or directory", "none: Permission denied"]);
    let res = find_files(&[], true);
    assert!(res.files.is_empty() && res.errors.is_empty());
}

fn entry(path: &str, is_dir: bool, mode: u32, size: u64) -> LongEntry {
    LongEntry {
        is_dir,
        mode,
        links: 1,
        user: "user".to_string(),
        group: "staff".to_string(),
        size,
        modified: "Oct 28 26 01:17".to_string(),
        path: path.to_string(),
    }
}

fn long_match(
    line: &str,
    expected_name: &str,
    expected_perms: &str,
    expected_size: Option<&str>,
) {
    let parts = line.split_whitespace().collect::<Vec<_>>();
    assert!(parts.len() > 0 && parts.len() <= 10);

    let perms = parts.get(0).unwrap();
    assert_eq!(perms, &expected_perms);

    if let Some(size) = expected_size {
        let file_size = parts.get(4).unwrap();
        assert_eq!(file_size, &size);
    }

    let display_name = parts.last().unwrap();
    assert_eq!(display_name, &expected_name)
}

#[test]
fn test_format_output_one() {
    let bustle_path = "tests/inputs/bustle.txt";
    let bustle = entry(bustle_path, false, 0o644, 193);

    let res = format_output(&[bustle]);
    assert!(res.is_some());

    let out = res.unwrap();
    let lines = out.split("\n").filter(|s| !s.is_empty()).collect::<Vec<_>>();
    assert_eq!(lines.len(), 1);

    let line1 = lines.first().unwrap();
    long_match(&line1, bustle_path, "-rw-r--r--", Some("193"));
}

#[test]
fn test_format_output_two() {
    let res = format_output(&[
        entry("tests/inputs/dir", true, 0o755, 4096),
        entry("tests/inputs/empty.txt", false, 0o644, 0),
    ]);
    assert!(res.is_some());

    let out = res.unwrap();
    let mut lines = out.split("\n").filter(|s| !s.is_empty()).collect::<Vec<_>>();
    lines.sort();
    assert_eq!(lines.len(), 2);

    let empty_line = lines.remove(0);
    long_match(&empty_line, "tests/inputs/empty.txt", "-rw-r--r--", Some("0"));

    let dir_line = lines.remove(0);
    long_match(&dir_line, "tests/inputs/dir", "drwxr-xr-x", None);
}

#[test]
fn the_long_listing_is_laid_out_in_columns() {
    let mut first = entry("a", false, 0o600, 5);
    first.links = 12;
    first.user = "root".to_string();
    let second = entry("dir/b.txt", true, 0o40755, 12345);
    let out = format_output(&[first, second]).unwrap();
    assert_eq!(
        out,
        "-rw-------  12  root  staff      5  Oct 28 26 01:17  a\n\
         drwxr-xr-x   1  user  staff  12345  Oct 28 26 01:17  dir/b.txt\n"
    );
    assert_eq!(format_output(&[]), Some(String::new()));
}

#[test]
fn owners_without_a_name_are_shown_by_number() {
    assert_eq!(owner_name(Some("root".to_string()), 0), "root");
    assert_eq!(owner_name(None, 0), "0");
    assert_eq!(owner_name(None, 1000), "1000");
    assert_eq!(owner_name(None, u32::MAX), "4294967295");
    assert_eq!(owner_name(Some(String::new()), 7), "");
}
