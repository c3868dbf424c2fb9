//! Tests of log pagination, the serialized log sink, line rendering,
//! and path layout.

use exeio::logs::read_logs_chunked;
use exeio::logs::read_logs_reverse_paginated;
use exeio::logs::read_logs_simple;
use exeio::logs::SafeLogger;
use exeio::logs::CHUNK_SIZE;
use exeio::paths::get_config_path;
use exeio::paths::get_lock_file_path;
use exeio::paths::get_logs_dir;
use exeio::paths::get_process_log_path;
use exeio::paths::get_supervisor_log_path;
use exeio::timefmt::fmt_u64;
use exeio::timefmt::format_log_line;
use exeio::timefmt::run_tag;
use exeio::timefmt::system_tag;

fn lines_as_strings(lines: Vec<Vec<u8>>) -> Vec<String> {
    lines.into_iter().map(|l| String::from_utf8(l).unwrap()).collect()
}

#[test]
fn pagination_newest_first() {
    let content = b"alpha\nbeta\n\ngamma\n".to_vec();
    let (lines, total) = read_logs_reverse_paginated(&content, 1, 50);
    assert_eq!(total, 3);
    assert_eq!(lines_as_strings(lines), vec!["gamma", "beta", "alpha"]);
}

#[test]
fn pagination_windows() {
    let content = b"1\n2\n3\n4\n5\n".to_vec();
    let (page1, total) = read_logs_reverse_paginated(&content, 1, 2);
    assert_eq!(total, 5);
    assert_eq!(lines_as_strings(page1), vec!["5", "4"]);
    let (page2, _) = read_logs_reverse_paginated(&content, 2, 2);
    assert_eq!(lines_as_strings(page2), vec!["3", "2"]);
    let (page3, _) = read_logs_reverse_paginated(&content, 3, 2);
    assert_eq!(lines_as_strings(page3), vec!["1"]);
    let (page4, _) = read_logs_reverse_paginated(&content, 4, 2);
    assert!(page4.is_empty());
}

#[test]
fn pagination_trims_and_drops_blank_lines() {
    let content = b"kept  \t\n   \n\r\nlast\r\n".to_vec();
    let (lines, total) = read_logs_simple(&content, 1, 10);
    assert_eq!(total, 2);
    assert_eq!(lines_as_strings(lines), vec!["last", "kept"]);
}

#[test]
fn pagination_of_empty_log() {
    let content: Vec<u8> = Vec::new();
    let (lines, total) = read_logs_reverse_paginated(&content, 1, 50);
    assert_eq!(total, 0);
    assert!(lines.is_empty());
}

#[test]
fn chunked_reader_agrees_with_one_pass() {
    // A log larger than two chunks, with line lengths chosen so that
    // lines straddle the chunk boundaries.
    let mut content: Vec<u8> = Vec::new();
    let mut n = 0u64;
    while content.len() < 3 * CHUNK_SIZE {
        n += 1;
        content.extend_from_slice(format!("line number {} with some padding text", n).as_bytes());
        content.push(b'\n');
    }
    for page in [1usize, 2, 3, 7, 100] {
        let (simple, total_s) = read_logs_simple(&content, page, 10);
        let (chunked, total_c) = read_logs_chunked(&content, page, 10);
        assert_eq!(total_s, total_c);
        assert_eq!(lines_as_strings(simple), lines_as_strings(chunked));
    }
}

#[test]
fn chunked_reader_keeps_a_line_spanning_the_boundary() {
    // One huge line crossing several chunk boundaries, between two
    // ordinary lines: nothing is dropped or torn.
    let mut content: Vec<u8> = Vec::new();
    content.extend_from_slice(b"first\n");
    let huge: Vec<u8> = std::iter::repeat(b'x').take(2 * CHUNK_SIZE + 17).collect();
    content.extend_from_slice(&huge);
    content.push(b'\n');
    content.extend_from_slice(b"last\n");
    let (lines, total) = read_logs_chunked(&content, 1, 10);
    assert_eq!(total, 3);
    let out = lines_as_strings(lines);
    assert_eq!(out[0], "last");
    assert_eq!(out[1].len(), 2 * CHUNK_SIZE + 17);
    assert!(out[1].bytes().all(|b| b == b'x'));
    assert_eq!(out[2], "first");
}

#[test]
fn sink_serializes_appends_per_path() {
    let mut sink = SafeLogger::new();
    let a = "/l/a.log".to_string();
    let b = "/l/b.log".to_string();
    let la1 = sink.get_log_lock(&a);
    let lb = sink.get_log_lock(&b);
    let la2 = sink.get_log_lock(&a);
    // One lock per distinct path, stable across calls.
    assert_eq!(la1, la2);
    assert_ne!(la1, lb);

    sink.safe_append_log(&a, "one\n");
    sink.safe_append_log(&b, "noise\n");
    sink.safe_append_log(&a, "two\n");
    assert_eq!(sink.contents[la1], "one\ntwo\n");
    assert_eq!(sink.contents[lb], "noise\n");

    sink.clear_log(&a);
    assert_eq!(sink.contents[la1], "");
    assert_eq!(sink.contents[lb], "noise\n");
}

#[test]
fn log_line_rendering() {
    assert_eq!(
        format_log_line(0, "SYSTEM 127.0.0.1:8080", "exeio process supervisor started"),
        "[1970-01-01 00:00:00] SYSTEM 127.0.0.1:8080: exeio process supervisor started\n"
    );
    assert_eq!(
        format_log_line(1431648000, "STDOUT", "hello"),
        "[2015-05-15 00:00:00] STDOUT: hello\n"
    );
    assert_eq!(system_tag("127.0.0.1", 8080), "SYSTEM 127.0.0.1:8080");
    assert_eq!(run_tag(3, false), "RUN#3 STDOUT");
    assert_eq!(run_tag(12, true), "RUN#12 STDERR");
    assert_eq!(fmt_u64(0), "0");
    assert_eq!(fmt_u64(120394), "120394");
    assert_eq!(fmt_u64(u64::MAX), "18446744073709551615");
}

#[test]
fn path_layout() {
    assert_eq!(
        get_config_path("/home/u"),
        "/home/u/.config/exeio/processes.json"
    );
    assert_eq!(get_logs_dir("/home/u"), "/home/u/.local/share/exeio/logs");
    assert_eq!(
        get_lock_file_path("/home/u"),
        "/home/u/.local/share/exeio/exeio.lock"
    );
    let logs = get_logs_dir("/home/u");
    assert_eq!(
        get_process_log_path(&logs, "echo1"),
        "/home/u/.local/share/exeio/logs/echo1.log"
    );
    assert_eq!(
        get_supervisor_log_path(&logs),
        "/home/u/.local/share/exeio/logs/exeio.log"
    );
}

#[test]
fn last_line_without_newline_is_kept() {
    let content = b"first\nsecond".to_vec();
    let (lines, total) = read_logs_simple(&content, 1, 10);
    assert_eq!(total, 2);
    assert_eq!(lines_as_strings(lines), vec!["second", "first"]);

    // The chunked reader keeps a trailing partial line too.
    let mut big: Vec<u8> = Vec::new();
    while big.len() < CHUNK_SIZE + 100 {
        big.extend_from_slice(b"padding line\n");
    }
    big.extend_from_slice(b"unterminated tail");
    let (lines, _) = read_logs_chunked(&big, 1, 1);
    assert_eq!(lines_as_strings(lines), vec!["unterminated tail"]);
}

#[test]
fn page_size_beyond_total_returns_everything() {
    let content = b"a\nb\n".to_vec();
    let (lines, total) = read_logs_reverse_paginated(&content, 1, 1000);
    assert_eq!(total, 2);
    assert_eq!(lines.len(), 2);
}
