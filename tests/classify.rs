use log_levels::parser::{parse_level, Level, LineErr};

#[test]
fn error_line_is_error() {
    assert_eq!(parse_level("2025-01-01T12:00:00Z|ERROR|auth|bad"), Ok(Level::Error));
}

#[test]
fn line_without_pipe_misses_field() {
    assert_eq!(parse_level("no-pipes-here"), Err(LineErr::MissingField));
    assert_eq!(parse_level(""), Err(LineErr::MissingField));
    assert_eq!(parse_level("ERROR"), Err(LineErr::MissingField));
}

#[test]
fn blank_level_is_empty() {
    assert_eq!(parse_level("2025-01-01T12:00:00Z||svc|msg"), Err(LineErr::EmptyLevel));
    assert_eq!(parse_level("ts| \t |svc|msg"), Err(LineErr::EmptyLevel));
    assert_eq!(parse_level("ts|"), Err(LineErr::EmptyLevel));
}

#[test]
fn unknown_level_carries_trimmed_text() {
    assert_eq!(
        parse_level("2025-01-01T12:00:00Z|VERBOSE|svc|msg"),
        Err(LineErr::UnknownLevel("VERBOSE".to_string()))
    );
    assert_eq!(
        parse_level("ts|  debug  |svc|msg"),
        Err(LineErr::UnknownLevel("debug".to_string()))
    );
    assert_eq!(parse_level("ts|ERRORS|svc"), Err(LineErr::UnknownLevel("ERRORS".to_string())));
}

#[test]
fn nul_in_level_gives_its_position() {
    assert_eq!(
        parse_level("2025-01-01T12:00:00Z|ER\u{0}ROR|svc|msg"),
        Err(LineErr::MalformedChars { pos: 2, ch: '\0' })
    );
}

#[test]
fn first_bad_character_wins_and_is_counted_in_characters() {
    assert_eq!(
        parse_level("ts| A\u{e9}B\u{1b}C |svc"),
        Err(LineErr::MalformedChars { pos: 1, ch: '\u{e9}' })
    );
    assert_eq!(
        parse_level("ts|WA\u{7f}RN|svc"),
        Err(LineErr::MalformedChars { pos: 2, ch: '\u{7f}' })
    );
    assert_eq!(
        parse_level("ts|\u{85}|svc"),
        Err(LineErr::EmptyLevel)
    );
}

#[test]
fn level_field_is_trimmed() {
    assert_eq!(parse_level("ts|  INFO\t|svc|msg"), Ok(Level::Info));
    assert_eq!(parse_level("ts|\u{a0}WARN\u{3000}|svc|msg"), Ok(Level::Warn));
}

#[test]
fn trailing_fields_are_optional() {
    assert_eq!(parse_level("ts|WARN"), Ok(Level::Warn));
    assert_eq!(parse_level("ts|INFO|svc"), Ok(Level::Info));
    assert_eq!(parse_level("|ERROR|"), Ok(Level::Error));
}

#[test]
fn message_may_hold_pipes() {
    assert_eq!(parse_level("ts|ERROR|svc|a|b|c"), Ok(Level::Error));
    assert_eq!(parse_level("ts|INFO||"), Ok(Level::Info));
}

#[test]
fn case_and_synonyms_are_unknown() {
    assert_eq!(parse_level("ts|info|s|m"), Err(LineErr::UnknownLevel("info".to_string())));
    assert_eq!(parse_level("ts|Warn|s|m"), Err(LineErr::UnknownLevel("Warn".to_string())));
    assert_eq!(parse_level("ts|WARNING|s|m"), Err(LineErr::UnknownLevel("WARNING".to_string())));
}
