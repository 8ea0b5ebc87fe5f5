use envexpand::error::{ErrorKind, Position, SyntaxError};

#[test]
fn position_advances() {
    let mut p = Position::start();
    assert_eq!((p.line, p.column), (1, 1));
    p.advance('a');
    assert_eq!((p.line, p.column), (1, 2));
    p.advance('\n');
    assert_eq!((p.line, p.column), (2, 1));
}

#[test]
fn syntax_error_accessors() {
    let e = SyntaxError::new(ErrorKind::NullCharacter, Position { line: 3, column: 7 }, Some("app.env".to_string()));
    assert_eq!(e.kind(), &ErrorKind::NullCharacter);
    assert_eq!(e.line(), 3);
    assert_eq!(e.column(), 7);
    assert_eq!(e.file(), Some("app.env"));
    let f = SyntaxError::new(ErrorKind::Eof, Position { line: 1, column: 1 }, None);
    assert_eq!(f.file(), None);
}

#[test]
fn syntax_error_equality_is_structural() {
    let a = SyntaxError::new(ErrorKind::InvalidCharacter('%'), Position { line: 2, column: 4 }, None);
    let b = SyntaxError::new(ErrorKind::InvalidCharacter('%'), Position { line: 2, column: 4 }, None);
    let c = SyntaxError::new(ErrorKind::InvalidCharacter('%'), Position { line: 2, column: 5 }, None);
    assert_eq!(a, b);
    assert_ne!(a, c);
}

#[test]
fn syntax_error_message_with_file() {
    let e = SyntaxError::new(ErrorKind::UnterminatedExpansion, Position { line: 12, column: 105 }, Some(".env".to_string()));
    assert_eq!(e.message(), "Unterminated expansion in .env on line 12, column 105");
}

#[test]
fn syntax_error_message_without_file() {
    let e = SyntaxError::new(ErrorKind::NullCharacter, Position { line: 1, column: 9 }, None);
    assert_eq!(e.message(), "Unexpected <NUL> character on line 1, column 9");
}

#[test]
fn error_kind_messages() {
    let cases = [
        (ErrorKind::Eof, "Unexpected end of input"),
        (ErrorKind::NullCharacter, "Unexpected <NUL> character"),
        (ErrorKind::UnescapedSpecialCharacter('|'), "Unescaped special shell character '|'"),
        (ErrorKind::UnterminatedSingleQuotedString, "Unterminated single-quoted string"),
        (ErrorKind::UnterminatedDoubleQuotedString, "Unterminated double-quoted string"),
        (ErrorKind::UnsupportedShellParameter("$@".to_string()), "Unsupported special shell parameter: $@"),
        (ErrorKind::UnterminatedExpansion, "Unterminated expansion"),
        (ErrorKind::UnsupportedCommandExpansion, "Unsupported command expansion"),
        (ErrorKind::UnsupportedCommandOrArithmeticExpansion, "Unsupported command or arithmetic expansion"),
        (ErrorKind::InvalidCharacter('é'), "Invalid character 'é'"),
    ];
    for (kind, text) in cases {
        assert_eq!(kind.message(), text);
    }
}
