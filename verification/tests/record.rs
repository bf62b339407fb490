use fingerprints::record::{
    consume, decimal_string, format_line, shown_path, FileRecord, Message, WriterAction,
    CHECKSUM_WIDTH, SEPARATOR_WIDTH,
};

#[test]
fn decimal_string_of_small_and_large_numbers() {
    assert_eq!(decimal_string(0), "0");
    assert_eq!(decimal_string(7), "7");
    assert_eq!(decimal_string(10), "10");
    assert_eq!(decimal_string(1234567890), "1234567890");
    assert_eq!(decimal_string(u64::MAX), "18446744073709551615");
}

#[test]
fn line_is_padded_to_the_column_width() {
    assert_eq!(format_line(42, "a.txt"), "42                      a.txt\n");
    assert_eq!(format_line(0, "x"), format!("0{}x\n", " ".repeat(23)));
}

#[test]
fn line_of_the_largest_checksum_has_no_padding() {
    assert_eq!(format_line(u64::MAX, "sub2/c.txt"), "18446744073709551615    sub2/c.txt\n");
}

#[test]
fn line_matches_the_standard_formatter() {
    let samples: [u64; 6] = [0, 9, 10, 99999, 7782558005969126279, u64::MAX];
    for checksum in samples {
        let expected = format!("{:<20}    {}\n", checksum, "dir/file name.bin");
        assert_eq!(format_line(checksum, "dir/file name.bin"), expected);
    }
}

#[test]
fn line_keeps_an_empty_path_and_non_ascii_paths() {
    assert_eq!(format_line(5, ""), format!("5{}\n", " ".repeat(23)));
    assert_eq!(format_line(5, "données/é.txt"), format!("{:<20}    données/é.txt\n", 5));
}

#[test]
fn column_widths() {
    assert_eq!(CHECKSUM_WIDTH, 20);
    assert_eq!(SEPARATOR_WIDTH, 4);
    let line = format_line(1, "p");
    assert_eq!(line.len(), CHECKSUM_WIDTH + SEPARATOR_WIDTH + 2);
}

#[test]
fn record_becomes_its_line() {
    let record = FileRecord { checksum: 123, path: "a.txt".to_string() };
    assert_eq!(record.to_line(), format_line(123, "a.txt"));
}

#[test]
fn writer_appends_records_and_exits_on_the_signal() {
    let record = FileRecord { checksum: 77, path: "sub2/c.txt".to_string() };
    match consume(&Message::Record(record)) {
        WriterAction::Append(line) => assert_eq!(line, "77                      sub2/c.txt\n"),
        WriterAction::Exit => panic!("a record does not end the run"),
    }
    assert!(matches!(consume(&Message::Terminate), WriterAction::Exit));
}

#[test]
fn two_runs_append_twice_the_lines() {
    let run = || {
        vec![
            Message::Record(FileRecord { checksum: 1, path: "a.txt".to_string() }),
            Message::Record(FileRecord { checksum: 2, path: "sub2/c.txt".to_string() }),
            Message::Terminate,
        ]
    };
    let mut log: Vec<String> = Vec::new();
    let mut per_run = 0;
    for round in 0..2 {
        for message in run() {
            match consume(&message) {
                WriterAction::Append(line) => {
                    log.push(line);
                    if round == 0 {
                        per_run += 1;
                    }
                }
                WriterAction::Exit => break,
            }
        }
    }
    assert_eq!(per_run, 2);
    assert_eq!(log.len(), 2 * per_run);
    assert_eq!(log[0], log[2]);
    assert_eq!(log[1], log[3]);
}

#[test]
fn shown_path_prefers_the_relative_form() {
    assert_eq!(shown_path("/work/a.txt".to_string(), Some("a.txt".to_string())), "a.txt");
    assert_eq!(shown_path("/else/a.txt".to_string(), None), "/else/a.txt");
    assert_eq!(shown_path("x".to_string(), Some(String::new())), "");
}

#[test]
fn record_under_the_working_directory_becomes_relative() {
    let record = FileRecord { checksum: 9, path: "/work/sub2/c.txt".to_string() };
    let shown = record.relative_to("/work");
    assert_eq!(shown.checksum, 9);
    assert_eq!(shown.path, "sub2/c.txt");
}

#[test]
fn record_elsewhere_keeps_its_path() {
    let record = FileRecord { checksum: 9, path: "/other/c.txt".to_string() };
    let shown = record.relative_to("/work");
    assert_eq!(shown.checksum, 9);
    assert_eq!(shown.path, "/other/c.txt");
    let sibling = FileRecord { checksum: 3, path: "/workshop/c.txt".to_string() };
    assert_eq!(sibling.relative_to("/work").path, "/workshop/c.txt");
    let relative = FileRecord { checksum: 4, path: "sub/a.txt".to_string() };
    assert_eq!(relative.relative_to("/work").path, "sub/a.txt");
}

#[test]
fn working_directory_itself_and_a_trailing_separator() {
    let same = FileRecord { checksum: 1, path: "/work".to_string() };
    assert_eq!(same.relative_to("/work").path, "");
    let slash = FileRecord { checksum: 1, path: "/work/a.txt".to_string() };
    assert_eq!(slash.relative_to("/work/").path, "a.txt");
    let root = FileRecord { checksum: 1, path: "/a.txt".to_string() };
    assert_eq!(root.relative_to("/").path, "a.txt");
}
