use tlang::{Error, Position};

#[test]
fn runtime_error_display() {
    let err = Error::runtime("something went wrong".to_string());
    assert_eq!(err.render(), "something went wrong");
}

#[test]
fn error_with_source_pos() {
    let err = Error::at_source("unexpected token".to_string(), 42);
    assert_eq!(err.render(), "unexpected token (at position 42)");
}

#[test]
fn error_with_input_line() {
    let err = Error::at_input("invalid value".to_string(), 10);
    assert_eq!(err.render(), "invalid value (at input line 10)");
}

#[test]
fn error_with_both_positions() {
    let err = Error::runtime("type mismatch".to_string()).with_source_pos(5).with_input_line(100);
    assert_eq!(err.render(), "type mismatch (at position 5, input line 100)");
}

#[test]
fn position_at_source() {
    let p = Position::at_source(7);
    assert_eq!(p.source_pos, Some(7));
    assert_eq!(p.input_line, None);
}

#[test]
fn position_at_input() {
    let p = Position::at_input(3);
    assert_eq!(p.source_pos, None);
    assert_eq!(p.input_line, Some(3));
}
