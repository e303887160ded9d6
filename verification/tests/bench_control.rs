use cyclonedds_rs::bench::control::{
    check_start, parse_value, receive_handshake_line, receive_publisher_line, receive_result_line,
    reports_startup_failure, result_progress, result_timeout_seconds, sanitize, stop_progress,
    topic_name,
    ChildEvent, Handshake, Progress,
};
use cyclonedds_rs::bench::publish::done_line;
use cyclonedds_rs::text::{
    chars_of, contains_text, decimal_text, is_space_char, parse_u128, parse_u64, push_repeated,
    same_text, split_fields, starts_with, strip_prefix, trim, Cut,
};
use cyclonedds_rs::time::{checked_later, LAST_MOMENT};

fn line(text: &str) -> ChildEvent {
    ChildEvent::Line(text.to_string())
}

#[test]
fn handshake_needs_both_sides_twice() {
    let mut handshake = Handshake::new();
    assert_eq!(handshake.progress(true), Progress::TimedOut);
    assert_eq!(handshake.progress(false), Progress::Wait);
    for role in ["subscriber", "publisher"] {
        for word in ["READY", "MATCHED"] {
            let event = line(&format!("{word} role={role}"));
            receive_handshake_line(role, event, &mut handshake).unwrap();
            let again = line(&format!("{word} role={role}"));
            receive_handshake_line(role, again, &mut handshake).unwrap();
        }
    }
    assert_eq!(handshake.len(), 4);
    assert_eq!(handshake.progress(false), Progress::Proceed);
    assert_eq!(handshake.progress(true), Progress::TimedOut);
}

#[test]
fn handshake_lines_can_fail() {
    let mut handshake = Handshake::new();
    receive_handshake_line("publisher", line("READY role=subscriber"), &mut handshake).unwrap();
    receive_handshake_line("publisher", ChildEvent::Empty, &mut handshake).unwrap();
    assert_eq!(handshake.len(), 0);
    assert_eq!(
        receive_handshake_line("publisher", line("ERROR broken"), &mut handshake)
            .unwrap_err()
            .message(),
        "ERROR broken"
    );
    assert_eq!(
        receive_handshake_line("publisher", ChildEvent::Disconnected, &mut handshake)
            .unwrap_err()
            .message(),
        "publisher exited before handshake"
    );
}

#[test]
fn result_lines_hold_the_record() {
    assert_eq!(
        receive_result_line(line("RESULT {\"a\":1}")).unwrap().as_deref(),
        Some("{\"a\":1}")
    );
    assert_eq!(receive_result_line(line("RESULT RESULT x")).unwrap().as_deref(), Some("x"));
    assert_eq!(receive_result_line(line("other")).unwrap(), None);
    assert_eq!(receive_result_line(ChildEvent::Empty).unwrap(), None);
    assert_eq!(receive_result_line(ChildEvent::Disconnected).unwrap(), None);
    assert_eq!(
        receive_result_line(line("ERROR x")).unwrap_err().message(),
        "ERROR x"
    );
}

#[test]
fn done_line_is_understood() {
    let mut messages_sent = None;
    let mut bytes_sent = None;
    let event = line(&done_line("r-1", 7, 1400, 99));
    receive_publisher_line(event, &mut messages_sent, &mut bytes_sent).unwrap();
    assert_eq!((messages_sent, bytes_sent), (Some(7), Some(1400)));
    receive_publisher_line(ChildEvent::Empty, &mut messages_sent, &mut bytes_sent).unwrap();
    assert_eq!((messages_sent, bytes_sent), (Some(7), Some(1400)));
    receive_publisher_line(line("DONE messages_sent=x"), &mut messages_sent, &mut bytes_sent)
        .unwrap();
    assert_eq!((messages_sent, bytes_sent), (None, None));
    assert!(
        receive_publisher_line(line("ERROR"), &mut messages_sent, &mut bytes_sent).is_err()
    );
    assert_eq!(parse_value("a=1 b=2 a=3", "a"), Some("1"));
    assert_eq!(parse_value("a=1", "b"), None);
}

#[test]
fn run_waits_for_result_and_count() {
    assert_eq!(result_progress(true, true, false), Progress::Proceed);
    assert_eq!(result_progress(true, true, true), Progress::TimedOut);
    assert_eq!(result_progress(true, false, false), Progress::Wait);
    assert_eq!(result_progress(false, true, true), Progress::TimedOut);
    assert_eq!(result_timeout_seconds(10), 15);
    assert_eq!(result_timeout_seconds(u64::MAX), u64::MAX);
}

#[test]
fn start_word_is_checked() {
    assert!(check_start(" START\n").is_ok());
    assert_eq!(check_start("STOP\n").unwrap_err().message(), "expected START, got STOP");
}

#[test]
fn topic_names_hold_plain_characters_only() {
    assert_eq!(sanitize("a-B.9 \u{e9}"), "a_B_9__");
    assert_eq!(topic_name("1-2", "udp/small"), "cyclonedds_bench_1_2_udp_small");
}

#[test]
fn startup_failures_are_recognised() {
    for failing in [
        "x Could not acquire lock y",
        "ICEORYX error! z",
        "Couldn't parse config file",
        "[Fatal] q",
    ] {
        assert!(reports_startup_failure(failing), "{failing}");
    }
    assert!(!reports_startup_failure("RouDi is ready for clients"));
}

#[test]
fn numbers_are_written_and_read() {
    assert_eq!(decimal_text(0), "0");
    assert_eq!(decimal_text(u128::MAX), u128::MAX.to_string());
    assert_eq!(parse_u128(&decimal_text(u128::MAX)), Some(u128::MAX));
    assert_eq!(parse_u64("18446744073709551615"), Some(u64::MAX));
    assert_eq!(parse_u64("18446744073709551616"), None);
    assert_eq!(parse_u64("+5"), Some(5));
    assert_eq!(parse_u64("+"), None);
    assert_eq!(parse_u64(""), None);
    assert_eq!(parse_u64("1_0"), None);
}

#[test]
fn texts_are_cut_and_compared() {
    assert_eq!(trim(" \t a b\n"), "a b");
    assert_eq!(split_fields(" a  b ", Cut::Spaces), vec!["a", "b"]);
    assert!(starts_with("ERROR x", "ERROR"));
    assert!(!starts_with("ERR", "ERROR"));
    assert_eq!(strip_prefix("key=value", "key="), Some("value"));
    assert_eq!(strip_prefix("key", "key="), None);
    assert!(contains_text("a needle b", "needle"));
    assert!(!contains_text("need", "needle"));
    assert!(same_text("\u{e9}", "\u{e9}"));
    assert!(!same_text("a", "b"));
    assert_eq!(chars_of("a\u{e9}"), vec!['a', '\u{e9}']);
    assert!(is_space_char('\u{3000}'));
    assert!(!is_space_char('x'));
    let mut s = String::from("<");
    push_repeated(&mut s, "ab", 3);
    assert_eq!(s, "<ababab");
}

#[test]
fn clock_ends_at_its_last_moment() {
    assert_eq!(checked_later(1, 2), Some(3));
    assert_eq!(checked_later(LAST_MOMENT, 0), Some(LAST_MOMENT));
    assert_eq!(checked_later(LAST_MOMENT, 1), None);
    assert_eq!(checked_later(1, u128::MAX), None);
}

#[test]
fn process_that_does_not_end_is_killed() {
    assert_eq!(stop_progress(true, false), Progress::Proceed);
    assert_eq!(stop_progress(false, false), Progress::Wait);
    assert_eq!(stop_progress(false, true), Progress::TimedOut);
    assert_eq!(stop_progress(true, true), Progress::TimedOut);
}
