use rsc::clock::timestamp;
use rsc::logfmt::logfmt_escape;
use rsc::logger::{
    center_pad, ensure_log_dir, format_line, log_dir, shift_failed, FileAction, FileLogger,
    LogWrite, WriteStage,
};
use std::collections::BTreeMap;

#[test]
fn test_logfmt_escape_plain() {
    assert_eq!(logfmt_escape("95"), "95");
    assert_eq!(logfmt_escape("Charging"), "Charging");
}

#[test]
fn test_logfmt_escape_space() {
    assert_eq!(logfmt_escape("Not charging"), "\"Not charging\"");
}

#[test]
fn test_logfmt_escape_equals() {
    assert_eq!(logfmt_escape("a=b"), "\"a=b\"");
}

#[test]
fn test_logfmt_escape_quote() {
    assert_eq!(logfmt_escape("a\"b"), "\"a\\\"b\"");
}

#[test]
fn test_logfmt_escape_backslash() {
    assert_eq!(logfmt_escape("a\\b"), "\"a\\\\b\"");
}

#[test]
fn test_logfmt_escape_empty() {
    assert_eq!(logfmt_escape(""), "\"\"");
}

#[test]
fn test_log_format_has_pipe_separators() {
    let level_pad = format!("{:<5}", "INFO");
    assert_eq!(level_pad, "INFO ");
    assert_eq!(level_pad.len(), 5);
    assert_eq!(center_pad("INFO"), level_pad);
    let line = format_line("T", "INFO", 1, "m", &[]);
    assert_eq!(line.matches(" | ").count(), 3);
    assert!(!line.contains('['));
}

#[test]
fn test_level_center_padding() {
    assert_eq!(center_pad("INFO"), "INFO ");
    assert_eq!(center_pad("WARN"), "WARN ");
    // 5-char level: no padding
    assert_eq!(center_pad("ERROR"), "ERROR");
    assert_eq!(center_pad("DEBUG"), "DEBUG");
}

#[test]
fn shorter_and_longer_levels() {
    assert_eq!(center_pad(""), "     ");
    assert_eq!(center_pad("A"), "  A  ");
    assert_eq!(center_pad("AB"), " AB  ");
    assert_eq!(center_pad("ABC"), " ABC ");
    assert_eq!(center_pad("NOTICE"), "NOTICE");
    assert_eq!(center_pad("\u{dc}BEL"), "\u{dc}BEL ");
}

#[test]
fn control_characters_are_quoted() {
    assert_eq!(logfmt_escape("a\tb"), "\"a\tb\"");
    assert_eq!(logfmt_escape("a\u{7f}"), "\"a\u{7f}\"");
    assert_eq!(logfmt_escape("a\u{85}"), "\"a\u{85}\"");
    assert_eq!(logfmt_escape("a\u{a0}"), "a\u{a0}");
    assert_eq!(logfmt_escape("\u{fc}"), "\u{fc}");
}

#[test]
fn lines_in_full() {
    assert_eq!(
        format_line(
            "2026-07-12 11:23:22 +08:00",
            "INFO",
            1,
            "CUTTING OFF",
            &[("cap", "95"), ("cutoff", "95")]
        ),
        "2026-07-12 11:23:22 +08:00 | INFO  | #1   | CUTTING OFF                              | cap=95 cutoff=95\n"
    );
    assert_eq!(
        format_line(
            "2026-07-12 11:23:22 +08:00",
            "ERROR",
            3,
            "config load failed \u{2014} using defaults",
            &[("err", "io: Permission denied"), ("hint", "check_config")]
        ),
        "2026-07-12 11:23:22 +08:00 | ERROR | #3   | config load failed \u{2014} using defaults      | err=\"io: Permission denied\" hint=check_config\n"
    );
    assert_eq!(
        format_line("T", "WARN", 1234, "m", &[]),
        "T | WARN  | #1234 | m                                       \n"
    );
    let long = "0123456789012345678901234567890123456789+";
    assert_eq!(format_line("T", "WARN", 42, long, &[]), format!("T | WARN  | #42  | {long}\n"));
}

#[test]
fn columns_stand_below_each_other() {
    let a = format_line("T", "INFO", 1, "short", &[("k", "v")]);
    let b = format_line("T", "ERROR", 999, "a longer message", &[("k", "v")]);
    let places = |s: &str| s.match_indices(" | ").map(|(i, _)| i).collect::<Vec<_>>();
    assert_eq!(places(&a), places(&b));
    assert_eq!(places(&a), vec![1, 9, 16, 59]);
}

#[test]
fn time_has_its_shape() {
    let time = timestamp();
    let bytes = time.as_bytes();
    assert_eq!(bytes.len(), 26);
    for (i, b) in bytes.iter().enumerate() {
        match i {
            4 | 7 => assert_eq!(*b, b'-'),
            10 | 19 => assert_eq!(*b, b' '),
            13 | 16 | 23 => assert_eq!(*b, b':'),
            20 => assert!(*b == b'+' || *b == b'-'),
            _ => assert!(b.is_ascii_digit()),
        }
    }
    assert!(time[..4] >= *"2024");
}

fn logger(max_kb: u64, keep: u32, existing: Option<u64>) -> FileLogger {
    FileLogger::new(b"/data/rsc.log".to_vec(), max_kb, keep, existing)
}

#[test]
fn lines_are_numbered_from_one() {
    let mut log = logger(1, 1, None);
    assert!(log.info("a").line.contains(" | INFO  | #1   | a"));
    assert!(log.warn("b").line.contains(" | WARN  | #2   | b"));
    assert!(log.error("c").line.contains(" | ERROR | #3   | c"));
    assert!(log.log("NOTE", "d").line.contains(" | NOTE  | #4   | d"));
    assert!(log.debug_if(false, "x").is_none());
    assert!(log.debug_if_kv(false, "x", &[]).is_none());
    let write = log.debug_if(true, "e").expect("a line");
    assert!(write.line.contains(" | DEBUG | #5   | e"));
    let write = log.debug_if_kv(true, "f", &[("k", "a b")]).expect("a line");
    assert!(write.line.contains(" | DEBUG | #6   | f"));
    assert!(write.line.ends_with(" | k=\"a b\"\n"));
    let write = log.log_kv("INFO", "g", &[("x", ""), ("y", "1")]);
    assert!(write.line.ends_with(" | x=\"\" y=1\n"));
}

#[test]
fn rotated_paths() {
    assert_eq!(logger(1, 1, None).rotated_path(12), b"/data/rsc.log.12");
    let bare = FileLogger::new(b"app.log".to_vec(), 1, 1, None);
    assert_eq!(bare.rotated_path(1), b"app.log.1");
    let nameless = FileLogger::new(b"/data/..".to_vec(), 1, 1, None);
    assert_eq!(nameless.rotated_path(3), b"/data/../rsc.log.3");
}

type Files = BTreeMap<Vec<u8>, Vec<u8>>;

/// Carries out what a line asks for; the operations in `failing` (by their place)
/// fail. Returns how many operations there were.
fn carry_out(log: &mut FileLogger, mut write: LogWrite, files: &mut Files, failing: &[usize]) -> usize {
    let mut place = 0;
    while let Some(action) = log.pending(&write) {
        let mut ok = !failing.contains(&place);
        if ok {
            match action {
                FileAction::RemoveIfExists { path } => {
                    files.remove(&path);
                }
                FileAction::RenameIfExists { from, to } => {
                    if let Some(data) = files.remove(&from) {
                        files.insert(to, data);
                    }
                }
                FileAction::Rename { from, to } => match files.remove(&from) {
                    Some(data) => {
                        files.insert(to, data);
                    }
                    None => ok = false,
                },
                FileAction::Append { path, data, mode } => {
                    assert_eq!(mode, 0o600);
                    files.entry(path).or_default().extend_from_slice(&data);
                }
            }
        }
        write = log.advance(write, ok);
        place += 1;
    }
    assert_eq!(write.stage, WriteStage::Done);
    place
}

fn held(files: &Files, path: &str) -> Option<String> {
    files.get(path.as_bytes()).map(|data| String::from_utf8(data.clone()).expect("text"))
}

fn before_rotation() -> Files {
    let mut files = Files::new();
    files.insert(b"/data/rsc.log".to_vec(), b"active".to_vec());
    files.insert(b"/data/rsc.log.1".to_vec(), b"one".to_vec());
    files.insert(b"/data/rsc.log.3".to_vec(), b"three".to_vec());
    files.insert(b"/data/rsc.log.4".to_vec(), b"four".to_vec());
    files.insert(b"/data/other".to_vec(), b"other".to_vec());
    files
}

#[test]
fn full_log_is_rotated() {
    let mut files = before_rotation();
    let mut log = logger(1, 3, Some(1025));
    let write = log.log_kv_at("T", "INFO", "m", &[]);
    let line = write.line.clone();
    assert_eq!(carry_out(&mut log, write, &mut files, &[]), 5);
    assert_eq!(held(&files, "/data/rsc.log"), Some(line));
    assert_eq!(held(&files, "/data/rsc.log.1"), Some("active".to_string()));
    assert_eq!(held(&files, "/data/rsc.log.2"), Some("one".to_string()));
    assert_eq!(held(&files, "/data/rsc.log.3"), None);
    assert_eq!(held(&files, "/data/rsc.log.4"), Some("four".to_string()));
    assert_eq!(held(&files, "/data/other"), Some("other".to_string()));
    let next = log.log_kv_at("T", "INFO", "m", &[]);
    assert_eq!(next.stage, WriteStage::Append);
}

#[test]
fn rotation_asks_in_order() {
    let mut log = logger(0, 2, Some(1));
    let mut write = log.log_kv_at("T", "INFO", "m", &[]);
    let line = write.line.clone().into_bytes();
    let path = b"/data/rsc.log".to_vec();
    let one = b"/data/rsc.log.1".to_vec();
    let two = b"/data/rsc.log.2".to_vec();
    assert!(matches!(log.pending(&write),
        Some(FileAction::RemoveIfExists { path: p }) if p == two));
    write = log.advance(write, true);
    assert!(matches!(log.pending(&write),
        Some(FileAction::RenameIfExists { from, to }) if from == one && to == two));
    write = log.advance(write, true);
    assert!(matches!(log.pending(&write),
        Some(FileAction::Rename { from, to }) if from == path && to == one));
    write = log.advance(write, true);
    assert!(matches!(log.pending(&write),
        Some(FileAction::Append { path: p, data, mode: 0o600 }) if p == path && data == line));
    write = log.advance(write, true);
    assert!(log.pending(&write).is_none());
}

#[test]
fn log_with_room_is_appended_to() {
    let mut files = before_rotation();
    let mut log = logger(1, 3, Some(1024));
    let write = log.log_kv_at("T", "INFO", "m", &[]);
    let line = write.line.clone();
    assert_eq!(carry_out(&mut log, write, &mut files, &[]), 1);
    let mut expected = before_rotation();
    expected.insert(b"/data/rsc.log".to_vec(), format!("active{line}").into_bytes());
    assert_eq!(files, expected);
    // The line took the log over its size.
    let next = log.log_kv_at("T", "INFO", "m", &[]);
    assert_eq!(next.stage, WriteStage::DropOldest);
}

#[test]
fn failed_move_is_tried_again() {
    let mut files = before_rotation();
    let mut log = logger(1, 3, Some(2000));
    let write = log.log_kv_at("T", "INFO", "m", &[]);
    carry_out(&mut log, write, &mut files, &[3]);
    assert_eq!(log.log_kv_at("T", "INFO", "m", &[]).stage, WriteStage::DropOldest);
    // Failures on the way to it do not matter, and a line that was not written
    // does not count.
    let write = log.log_kv_at("T", "INFO", "m", &[]);
    carry_out(&mut log, write, &mut files, &[0, 1, 2, 4]);
    assert_eq!(log.log_kv_at("T", "INFO", "m", &[]).stage, WriteStage::Append);
}

#[test]
fn counter_is_the_size_of_the_file() {
    let mut files = Files::new();
    let mut log = logger(1, 2, None);
    for i in 0..100 {
        let write = log.log_kv_at("T", "INFO", &format!("line {i}"), &[]);
        let rotating = write.stage == WriteStage::DropOldest;
        let size = files.get(b"/data/rsc.log".as_slice()).map_or(0, |data| data.len());
        assert_eq!(rotating, size > 1024);
        carry_out(&mut log, write, &mut files, &[]);
        assert!(files[b"/data/rsc.log".as_slice()].len() <= 1024 + 61);
    }
    assert_eq!(files.len(), 3);
}

#[test]
fn limits_of_a_logger() {
    // At least one rotated file is kept, and the size limit does not overflow.
    let mut log = logger(0, 0, Some(1));
    let write = log.log_kv_at("T", "INFO", "m", &[]);
    assert!(matches!(log.pending(&write),
        Some(FileAction::RemoveIfExists { path }) if path == b"/data/rsc.log.1"));
    let mut log = logger(u64::MAX, 1, Some(u64::MAX));
    assert_eq!(log.log_kv_at("T", "INFO", "m", &[]).stage, WriteStage::Append);
}

#[test]
fn log_directory() {
    assert_eq!(log_dir(b"/data/adb/rsc.log"), Some(b"/data/adb".to_vec()));
    assert_eq!(log_dir(b"rsc.log"), Some(Vec::new()));
    assert_eq!(log_dir(b"/"), None);
    assert!(ensure_log_dir(b"/data/rsc.log", true, true));
    assert!(!ensure_log_dir(b"/data/rsc.log", true, false));
    assert!(!ensure_log_dir(b"/data/rsc.log", false, true));
    assert!(!ensure_log_dir(b"rsc.log", true, false));
    assert!(ensure_log_dir(b"/", false, false));
    assert!(ensure_log_dir(b"", false, false));
}

/// Reads a logfmt text back into its pairs.
fn read_pairs(text: &str) -> Vec<(String, String)> {
    let cs: Vec<char> = text.chars().collect();
    let mut i = 0;
    let mut pairs = Vec::new();
    while i < cs.len() {
        let mut key = String::new();
        while cs[i] != '=' {
            key.push(cs[i]);
            i += 1;
        }
        i += 1;
        let mut value = String::new();
        if i < cs.len() && cs[i] == '"' {
            i += 1;
            while cs[i] != '"' {
                if cs[i] == '\\' {
                    i += 1;
                }
                value.push(cs[i]);
                i += 1;
            }
            i += 1;
        } else {
            while i < cs.len() && cs[i] != ' ' {
                value.push(cs[i]);
                i += 1;
            }
        }
        pairs.push((key, value));
        i += 1;
    }
    pairs
}

#[test]
fn pairs_read_back() {
    let kv = [
        ("cap", "95"),
        ("state", "Not charging"),
        ("err", "say \"no\" to C:\\ a=b"),
        ("none", ""),
        ("tail", "\\"),
    ];
    let line = format_line("T", "INFO", 1, "m", &kv);
    let text = line.trim_end_matches('\n').rsplit(" | ").next().expect("a column");
    let expected: Vec<(String, String)> =
        kv.iter().map(|(k, v)| (k.to_string(), v.to_string())).collect();
    assert_eq!(read_pairs(text), expected);
}

#[test]
fn different_values_are_written_differently() {
    let values = ["", "\"\"", "a", "\"a\"", "a b", "\"a b\"", "\\", "\\\\", "\"", "a=b", "\t"];
    for (i, a) in values.iter().enumerate() {
        for b in &values[i + 1..] {
            assert_ne!(logfmt_escape(a), logfmt_escape(b));
        }
    }
}

#[test]
fn different_numbers_make_different_lines() {
    let numbers = [1, 2, 10, 11, 99, 100, 101, 999, 1000, 10000];
    for (i, m) in numbers.iter().enumerate() {
        for n in &numbers[i + 1..] {
            assert_ne!(format_line("T", "INFO", *m, "m", &[]), format_line("T", "INFO", *n, "m", &[]));
        }
    }
}

#[test]
fn level_and_message_are_found_in_the_line() {
    for (level, msg) in [("INFO", "thermal delimiter on"), ("X", ""), ("CRITICAL", "CUTTING OFF")] {
        let line = format_line("T", level, 7, msg, &[("k", "v")]);
        assert!(line.contains(level));
        assert!(line.contains(msg));
    }
}

#[test]
fn rotated_files_are_apart_from_each_other() {
    let log = logger(1, 12, None);
    let mut paths: Vec<Vec<u8>> = (1..=120).map(|n| log.rotated_path(n)).collect();
    paths.push(b"/data/rsc.log".to_vec());
    for path in &paths {
        assert_eq!(log_dir(path), Some(b"/data".to_vec()));
    }
    paths.sort();
    paths.dedup();
    assert_eq!(paths.len(), 121);
}

#[test]
fn rotation_needs_more_than_the_limit() {
    for (existing, stage) in [
        (0, WriteStage::Append),
        (1023, WriteStage::Append),
        (1024, WriteStage::Append),
        (1025, WriteStage::DropOldest),
    ] {
        assert_eq!(logger(1, 3, Some(existing)).log_kv_at("T", "INFO", "m", &[]).stage, stage);
    }
    assert_eq!(logger(0, 3, None).log_kv_at("T", "INFO", "m", &[]).stage, WriteStage::Append);
}

#[test]
fn failed_shifts_alone_are_reported() {
    assert!(shift_failed(WriteStage::Shift { n: 2 }, false));
    assert!(!shift_failed(WriteStage::Shift { n: 2 }, true));
    for stage in [
        WriteStage::DropOldest,
        WriteStage::Move,
        WriteStage::Append,
        WriteStage::Done,
    ] {
        assert!(!shift_failed(stage, false));
    }
}

#[test]
fn numbers_count_lines_and_nothing_else() {
    let mut files = before_rotation();
    let mut log = logger(0, 2, Some(1));
    for number in 1..=20u64 {
        assert_eq!(log.last_seq(), number - 1);
        assert!(log.debug_if(false, "x").is_none());
        let write = log.log_kv_at("T", "INFO", "m", &[]);
        assert!(write.line.contains(&format!(" | #{number} ")));
        // Whether the writes go well or not takes no number.
        let failing: &[usize] = if number % 3 == 0 { &[2, 3] } else { &[] };
        carry_out(&mut log, write, &mut files, failing);
    }
    assert_eq!(log.last_seq(), 20);
}

#[test]
fn debug_lines_are_gated() {
    let mut with = logger(1, 2, None);
    let mut without = logger(1, 2, None);
    assert!(with.debug_if_kv(false, "x", &[("k", "v")]).is_none());
    assert_eq!(
        with.log_kv_at("T", "INFO", "m", &[]).line,
        without.log_kv_at("T", "INFO", "m", &[]).line
    );
    let gated = with.debug_if_kv(true, "x", &[("k", "v")]).expect("a line");
    let plain = without.log_kv("DEBUG", "x", &[("k", "v")]);
    assert_eq!(gated.line[26..], plain.line[26..]);
    assert_eq!(gated.stage, plain.stage);
    assert_eq!(with.last_seq(), without.last_seq());
}
