use jarvish::capture::parse_capture_output;
use jarvish::framing::{
    contains_line, echo_wait, read_wait, startup_turn, startup_wait, text_contains_line, Fed, FramedRead, PartialRead,
    ReadEvent, MAX_RESPONSE_BYTES, READY_MARKER,
};
use jarvish::budget::Timeout;

/// The frame that a whole buffer completes, if it completes one.
fn extract_frame(buf: &[u8]) -> Option<String> {
    let mut read = PartialRead::new();
    match read.feed(buf) {
        Fed::Frame(frame) => Some(frame),
        _ => None,
    }
}

#[test]
fn zsh_daemon_contains_line_finds_exact_match_among_multiple_lines() {
    let haystack = b"source /tmp/foo.zsh\r\nsome noise\r\njarvish_daemon_ok\r\n";
    assert!(contains_line(haystack, READY_MARKER));
}

#[test]
fn zsh_daemon_contains_line_does_not_match_substring_only() {
    let haystack = b"not jarvish_daemon_ok exactly\r\n";
    assert!(!contains_line(haystack, READY_MARKER));
}

#[test]
fn zsh_daemon_contains_line_absent_returns_false() {
    let haystack = b"still initializing...\r\n";
    assert!(!contains_line(haystack, READY_MARKER));
}

#[test]
fn zsh_daemon_contains_line_trims_trailing_carriage_return() {
    let haystack = b"jarvish_daemon_ok\r\n";
    assert!(contains_line(haystack, READY_MARKER));
}

#[test]
fn zsh_daemon_extract_frame_between_two_sentinels() {
    let buf = b"jarvishtestcmd \x00\r\nalpha\r\nbeta\r\ngamma\r\n\x00\r\n\x07";
    let frame = extract_frame(buf).expect("should find a frame");
    assert_eq!(frame, "\r\nalpha\r\nbeta\r\ngamma\r\n");
}

#[test]
fn zsh_daemon_extract_frame_missing_second_sentinel_returns_none() {
    let buf = b"jarvishtestcmd \x00\r\nalpha\r\nbeta\r\n";
    assert_eq!(extract_frame(buf), None);
}

#[test]
fn zsh_daemon_extract_frame_no_sentinel_at_all_returns_none() {
    let buf = b"alpha\r\nbeta\r\ngamma\r\n";
    assert_eq!(extract_frame(buf), None);
}

#[test]
fn zsh_daemon_extract_frame_empty_frame_between_adjacent_sentinels() {
    let buf = b"\x00\x00";
    let frame = extract_frame(buf).expect("adjacent sentinels should still frame (empty)");
    assert_eq!(frame, "");
}

#[test]
fn zsh_daemon_extracted_frame_feeds_into_parse_capture_output() {
    let buf = b"jarvishtestcmd \x00\r\nalpha\r\nbeta -- desc\r\n\x00\r\n\x07";
    let frame = extract_frame(buf).expect("should find a frame");
    let candidates = parse_capture_output(&frame);
    let values: Vec<&str> = candidates.iter().map(|c| c.value.as_str()).collect();
    assert_eq!(values, vec!["alpha", "beta"]);
    assert_eq!(
        candidates
            .iter()
            .find(|c| c.value == "beta")
            .unwrap()
            .description,
        Some("desc".to_string())
    );
}

#[test]
fn tests_contains_line_finds_exact_match_among_multiple_lines() {
    let haystack = b"source /tmp/foo.zsh\r\nsome noise\r\njarvish_daemon_ok\r\n";
    assert!(contains_line(haystack, READY_MARKER));
}

#[test]
fn tests_contains_line_does_not_match_substring_only() {
    let haystack = b"not jarvish_daemon_ok exactly\r\n";
    assert!(!contains_line(haystack, READY_MARKER));
}

#[test]
fn tests_contains_line_absent_returns_false() {
    let haystack = b"still initializing...\r\n";
    assert!(!contains_line(haystack, READY_MARKER));
}

#[test]
fn tests_contains_line_trims_trailing_carriage_return() {
    let haystack = b"jarvish_daemon_ok\r\n";
    assert!(contains_line(haystack, READY_MARKER));
}

#[test]
fn tests_extract_frame_between_two_sentinels() {
    let buf = b"jarvishtestcmd \x00\r\nalpha\r\nbeta\r\ngamma\r\n\x00\r\n\x07";
    let frame = extract_frame(buf).expect("should find a frame");
    assert_eq!(frame, "\r\nalpha\r\nbeta\r\ngamma\r\n");
}

#[test]
fn tests_extract_frame_missing_second_sentinel_returns_none() {
    let buf = b"jarvishtestcmd \x00\r\nalpha\r\nbeta\r\n";
    assert_eq!(extract_frame(buf), None);
}

#[test]
fn tests_extract_frame_no_sentinel_at_all_returns_none() {
    let buf = b"alpha\r\nbeta\r\ngamma\r\n";
    assert_eq!(extract_frame(buf), None);
}

#[test]
fn tests_extract_frame_empty_frame_between_adjacent_sentinels() {
    let buf = b"\x00\x00";
    let frame = extract_frame(buf).expect("adjacent sentinels should still frame (empty)");
    assert_eq!(frame, "");
}

#[test]
fn tests_extracted_frame_feeds_into_parse_capture_output() {
    let buf = b"jarvishtestcmd \x00\r\nalpha\r\nbeta -- desc\r\n\x00\r\n\x07";
    let frame = extract_frame(buf).expect("should find a frame");
    let candidates = parse_capture_output(&frame);
    let values: Vec<&str> = candidates.iter().map(|c| c.value.as_str()).collect();
    assert_eq!(values, vec!["alpha", "beta"]);
    assert_eq!(
        candidates
            .iter()
            .find(|c| c.value == "beta")
            .unwrap()
            .description,
        Some("desc".to_string())
    );
}

#[test]
fn chunks_do_not_matter() {
    let bytes = b"echo \x00one\r\ntwo\x00 tail";
    for cut in 0..bytes.len() {
        let mut read = PartialRead::new();
        let first = read.feed(&bytes[..cut]);
        if first == Fed::Pending {
            assert_eq!(read.feed(&bytes[cut..]), Fed::Frame("one\r\ntwo".to_string()));
        } else {
            assert_eq!(first, Fed::Frame("one\r\ntwo".to_string()));
        }
    }
}

#[test]
fn frame_spans_two_reads() {
    let mut read = PartialRead::new();
    assert_eq!(read.read_framed_response(&ReadEvent::Chunk(b"x\x00a".to_vec())), None);
    assert_eq!(read.read_framed_response(&ReadEvent::Nothing), None);
    assert_eq!(read.read_framed_response(&ReadEvent::Expired), Some(FramedRead::Timeout));
    assert_eq!(
        read.read_framed_response(&ReadEvent::Chunk(b"b\x00c".to_vec())),
        Some(FramedRead::Frame("ab".to_string()))
    );
    assert_eq!(read.read_framed_response(&ReadEvent::Chunk(b"\x00\x00".to_vec())), Some(FramedRead::Frame(String::new())));
}

#[test]
fn too_many_bytes_overflow() {
    let mut read = PartialRead::new();
    assert_eq!(read.feed(&vec![b'A'; MAX_RESPONSE_BYTES]), Fed::Pending);
    assert_eq!(read.feed(b"A"), Fed::BufferOverflow);
    assert_eq!(read.feed(b"\x00B\x00"), Fed::Frame("B".to_string()));
}

#[test]
fn frame_goes_before_the_limit() {
    let mut bytes = vec![b'A'; MAX_RESPONSE_BYTES];
    bytes.extend_from_slice(b"\x00frame\x00");
    let mut read = PartialRead::new();
    assert_eq!(read.feed(&bytes), Fed::Frame("frame".to_string()));
}

#[test]
fn reset_forgets_the_opening_sentinel() {
    let mut read = PartialRead::new();
    assert_eq!(read.feed(b"\x00old"), Fed::Pending);
    read.reset();
    assert_eq!(read.feed(b"\x00new"), Fed::Pending);
    assert_eq!(read.feed(b"\x00"), Fed::Frame("new".to_string()));
}

#[test]
fn bytes_that_are_not_utf8_are_replaced() {
    assert_eq!(extract_frame(b"\x00a\xffb\x00").as_deref(), Some("a\u{fffd}b"));
    assert_eq!(extract_frame("\u{0}日本\u{0}".as_bytes()).as_deref(), Some("日本"));
}

#[test]
fn line_is_matched_as_a_whole() {
    assert!(text_contains_line("a\nb", "b"));
    assert!(text_contains_line("a\r\n\r\nb", ""));
    assert!(!text_contains_line("a\n", ""));
    assert!(!text_contains_line("", ""));
    assert!(!text_contains_line("  ok\n", "ok"));
    assert!(!text_contains_line("ok  \n", "ok"));
    assert!(text_contains_line("ok\r\n", "ok"));
    assert!(!text_contains_line("ok\r\r\n", "ok"));
    assert!(text_contains_line("ok\r\r\n", "ok\r"));
    assert!(!text_contains_line("ok\r", "ok"));
    assert!(text_contains_line("ok\r", "ok\r"));
}

#[test]
fn shell_is_ready_once_the_marker_has_come() {
    let mut held = Vec::new();
    assert_eq!(startup_turn(&mut held, &ReadEvent::Nothing), None);
    assert_eq!(startup_turn(&mut held, &ReadEvent::Chunk(b"noise\r\njarvish_dae".to_vec())), None);
    assert_eq!(startup_turn(&mut held, &ReadEvent::Chunk(b"mon_ok\r\n".to_vec())), Some(true));
    assert_eq!(held, b"noise\r\njarvish_daemon_ok\r\n");
    let mut silent = Vec::new();
    assert_eq!(startup_turn(&mut silent, &ReadEvent::Expired), Some(false));
}

#[test]
fn single_wait_is_short() {
    assert_eq!(read_wait(Timeout::from_millis(0)), None);
    assert_eq!(read_wait(Timeout::from_millis(150)), Some(Timeout::from_millis(150)));
    assert_eq!(read_wait(Timeout::from_millis(5000)), Some(Timeout::from_millis(200)));
}

#[test]
fn waits_end_with_the_deadline() {
    let none = Timeout { nanos: 0 };
    let short = Timeout::from_millis(30);
    let long = Timeout::from_millis(900);
    assert_eq!(echo_wait(none), None);
    assert_eq!(echo_wait(short), Some(short));
    assert_eq!(echo_wait(long), Some(long));
    assert_eq!(startup_wait(none), None);
    assert_eq!(startup_wait(short), Some(Timeout::from_millis(200)));
    assert_eq!(startup_wait(long), Some(Timeout::from_millis(200)));
}
