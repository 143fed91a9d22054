use log_levels::parser::{parse_level, Level, LineErr};

fn make_line(ts: &str, lvl: &str, svc: &str, msg: &str) -> String {
    format!("{}|{}|{}|{}", ts, lvl, svc, msg)
}

#[test]
fn parser_parse_valid_levels() {
    let l = make_line("2025-01-01T12:00:00Z", "ERROR", "auth", "bad");
    assert_eq!(parse_level(&l).unwrap(), Level::Error);

    let l = make_line("2025-01-01T12:00:00Z. ", "INFO", "auth", "ok");
    assert_eq!(parse_level(&l).unwrap(), Level::Info);

    let l = make_line("2025-01-01T12:00:00Z", "WARN", "svc", "warny");
    assert_eq!(parse_level(&l).unwrap(), Level::Warn);

    let l = make_line("2025-01-01T12:00:00Z", "WARN", "svc", "warny");
    assert_eq!(parse_level(&l).unwrap(), Level::Warn);
}

#[test]
fn parser_parse_malformed_lines() {
    let l = "no-pipes-here";
    assert_eq!(parse_level(l).unwrap_err(), LineErr::MissingField);

    let l = "2025-01-01T12:00:00Z||svc|msg";
    assert_eq!(parse_level(l).unwrap_err(), LineErr::EmptyLevel);

    let l = make_line("2025-01-01T12:00:00Z", "VERBOSE", "svc", "msg");
    match parse_level(&l) {
        Err(LineErr::UnknownLevel(s)) => assert_eq!(s, "VERBOSE"),
        other => panic!("expected UnknownLevel, got {:?}", other),
    }

    let l = make_line("2025-01-01T12:00:00Z", "ER\u{0}ROR", "svc", "msg");
    match parse_level(&l) {
        Err(LineErr::MalformedChars { pos, ch }) => {
            assert_eq!(ch, '\0');
            assert!(pos > 0);
        }
        other => panic!("expected MalformedChars, got {:?}", other),
    }
}

// Matching is exact and case-sensitive: lower- or mixed-case names and
// synonyms are unknown levels.
#[test]
fn main_parse_valid_levels() {
    let l = make_line("2025-01-01T12:00:00Z", "ERROR", "auth", "bad");
    assert_eq!(parse_level(&l).unwrap(), Level::Error);

    let l = make_line("2025-01-01T12:00:00Z. ", "info", "auth", "ok");
    assert_eq!(parse_level(&l).unwrap_err(), LineErr::UnknownLevel("info".to_string()));

    let l = make_line("2025-01-01T12:00:00Z", "Warn", "svc", "warny");
    assert_eq!(parse_level(&l).unwrap_err(), LineErr::UnknownLevel("Warn".to_string()));

    let l = make_line("2025-01-01T12:00:00Z", "WARNING", "svc", "warny");
    assert_eq!(parse_level(&l).unwrap_err(), LineErr::UnknownLevel("WARNING".to_string()));
}

#[test]
fn main_parse_malformed_lines() {
    let l = "no-pipes-here";
    assert_eq!(parse_level(l).unwrap_err(), LineErr::MissingField);

    let l = "2025-01-01T12:00:00Z||svc|msg";
    assert_eq!(parse_level(l).unwrap_err(), LineErr::EmptyLevel);

    let l = make_line("2025-01-01T12:00:00Z", "VERBOSE", "svc", "msg");
    match parse_level(&l) {
        Err(LineErr::UnknownLevel(s)) => assert_eq!(s, "VERBOSE"),
        other => panic!("expected UnknownLevel, got {:?}", other),
    }

    let l = make_line("2025-01-01T12:00:00Z", "ER\u{0}ROR", "svc", "msg");
    match parse_level(&l) {
        Err(LineErr::MalformedChars { pos, ch }) => {
            assert_eq!(ch, '\0');
            assert!(pos > 0);
        }
        other => panic!("expected MalformedChars, got {:?}", other),
    }
}
