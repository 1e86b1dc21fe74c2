use mikes_crawler::better_logging::{
    BetterLogging, Elapsed, HeaderPart, LogLevel, REQUEST_ID_HEADER, RequestId, completed,
    log_filter, print_msg_header,
};
use mikes_crawler::http_client::Status;

const LEVELS: [LogLevel; 6] = [
    LogLevel::Critical,
    LogLevel::Error,
    LogLevel::Warning,
    LogLevel::Info,
    LogLevel::Debug,
    LogLevel::Trace,
];

#[test]
fn request_ids_are_written_in_base64() {
    assert_eq!(RequestId::from_bytes(&[0, 0, 0]).as_str(), "AAAA");
    assert_eq!(RequestId::from_bytes(&[255, 255, 255]).as_str(), "////");
    assert_eq!(RequestId::from_bytes(b"Man").as_str(), "TWFu");
    assert_eq!(RequestId::from_bytes(&[0xfb, 0xef, 0xbe]).as_str(), "++++");
    assert_eq!(RequestId::from_bytes(&[0x6a, 0xed, 0x3d]).as_str(), "au09");
}

#[test]
fn random_request_ids_are_four_letters() {
    let ids: Vec<RequestId> = (0..50).map(|_| RequestId::rand()).collect();
    for id in &ids {
        assert_eq!(id.as_str().len(), 4);
        assert!(id.as_str().chars().all(|c| c.is_ascii_alphanumeric() || c == '+' || c == '/'));
    }
    assert!(ids.iter().any(|id| id != &ids[0]));
}

#[test]
fn different_bytes_make_different_ids() {
    assert_ne!(RequestId::from_bytes(&[1, 2, 3]), RequestId::from_bytes(&[1, 2, 4]));
    assert_ne!(RequestId::from_bytes(&[1, 2, 3]), RequestId::from_bytes(&[1, 3, 3]));
    assert_ne!(RequestId::from_bytes(&[1, 2, 3]), RequestId::from_bytes(&[2, 2, 3]));
}

#[test]
fn a_request_without_an_id_is_told_apart() {
    assert_eq!(RequestId::missing().as_str(), "missing");
    assert_eq!(REQUEST_ID_HEADER, "X-REQ-ID");
}

#[test]
fn requests_are_logged_when_they_come_in() {
    let logging = BetterLogging {};
    assert_eq!(logging.name(), "BetterLogging");
    assert_eq!(logging.on_request("/status"), "Received request: /status");
}

#[test]
fn requests_are_logged_when_they_are_completed() {
    let logging = BetterLogging {};
    assert_eq!(
        logging.on_response("/status", Status::new(200), &Elapsed::Time(1, 23)),
        "Completed request /status with status 200 OK in 1.023s"
    );
    assert_eq!(
        logging.on_response("/x", Status::new(499), &Elapsed::NoStart),
        "Completed request /x with status 499 Client Error in Start time not set"
    );
    assert_eq!(
        completed("/x", "200 OK", &Elapsed::ClockError("second time".to_string())),
        "Completed request /x with status 200 OK in second time"
    );
}

#[test]
fn times_are_written_with_milliseconds() {
    assert_eq!(Elapsed::Time(0, 0).text(), "0.000s");
    assert_eq!(Elapsed::Time(0, 7).text(), "0.007s");
    assert_eq!(Elapsed::Time(10, 70).text(), "10.070s");
    assert_eq!(Elapsed::Time(3600, 700).text(), "3600.700s");
    assert_eq!(Elapsed::Time(u64::MAX, 999).text(), "18446744073709551615.999s");
    assert_eq!(Elapsed::Time(1, 1234).text(), format!("{}.{:03}s", 1, 1234));
}

#[test]
fn most_modules_are_heard() {
    for level in LEVELS {
        assert!(log_filter("mikes_crawler::crawler", level));
        assert!(log_filter("html5ever", level));
        assert!(log_filter("mio::poll::more", level));
        assert!(log_filter("wanted", level));
        assert!(log_filter("", level));
    }
}

#[test]
fn the_tokenizer_is_silenced_but_for_traces() {
    for module in ["html5ever::tokenizer", "html5ever::tokenizer::char_ref"] {
        for level in LEVELS {
            assert_eq!(log_filter(module, level), level == LogLevel::Trace);
        }
    }
}

#[test]
fn modules_of_the_network_are_silenced_from_debug_on() {
    for module in ["mio::poll", "want"] {
        for level in LEVELS {
            let quiet = level == LogLevel::Debug || level == LogLevel::Trace;
            assert_eq!(log_filter(module, level), !quiet);
        }
    }
}

#[test]
fn levels_have_the_short_names_of_slog() {
    let levels = [
        slog::Level::Critical,
        slog::Level::Error,
        slog::Level::Warning,
        slog::Level::Info,
        slog::Level::Debug,
        slog::Level::Trace,
    ];
    for (level, other) in LEVELS.iter().zip(levels.iter()) {
        assert_eq!(level.as_short_str(), other.as_short_str());
    }
    assert!(slog::Level::Critical < slog::Level::Debug && slog::Level::Debug < slog::Level::Trace);
}

#[test]
fn the_header_of_a_line_shows_its_module() {
    let (parts, has_message) = print_msg_header(LogLevel::Warning, "want", "hello");
    assert_eq!(
        parts,
        vec![
            (HeaderPart::Whitespace, " ".to_string()),
            (HeaderPart::Level, "WARN".to_string()),
            (HeaderPart::Location, "[want]".to_string()),
            (HeaderPart::Whitespace, " ".to_string()),
            (HeaderPart::Message, "hello".to_string()),
        ]
    );
    assert!(has_message);
    assert!(!print_msg_header(LogLevel::Info, "want", "").1);
}
