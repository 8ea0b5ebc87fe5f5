use envexpand::ast::{Assignment, Expansion, Expression, Operator};
use envexpand::error::{ErrorKind, SyntaxError};
use envexpand::evaluator::Evaluator;
use envexpand::parser::parse;
use envexpand::scope::Scope;

fn chars(s: &str) -> Expression {
    Expression::Characters(s.to_string())
}

fn expansion(name: &str, operator: Operator, rhs: Vec<Expression>) -> Expression {
    Expression::Expansion(Expansion { name: name.to_string(), operator, rhs })
}

fn assign(name: &str, value: Vec<Expression>) -> Assignment {
    Assignment { name: name.to_string(), value }
}

fn error_of(input: &str) -> SyntaxError {
    parse(input, None).unwrap_err()
}

fn where_of(e: &SyntaxError) -> (usize, usize) {
    (e.line(), e.column())
}

#[test]
fn parses_literal_declarations() {
    let ast = parse("A=hello\nB=world\n", None).unwrap();
    assert_eq!(ast, vec![assign("A", vec![chars("hello")]), assign("B", vec![chars("world")])]);
}

#[test]
fn skips_blank_lines_and_comments() {
    let ast = parse("# heading\n\n  A=1\n# B=2\n", None).unwrap();
    assert_eq!(ast, vec![assign("A", vec![chars("1")])]);
}

#[test]
fn empty_value_has_no_segments() {
    assert_eq!(parse("A=", None).unwrap(), vec![assign("A", vec![])]);
}

#[test]
fn quoting_and_escapes() {
    let ast = parse("A='a b $c'\nB=\"x\\\"y\\$z\\q\"\nC=p\\ q\n", None).unwrap();
    assert_eq!(
        ast,
        vec![assign("A", vec![chars("a b $c")]), assign("B", vec![chars("x\"y$z\\q")]), assign("C", vec![chars("p q")])]
    );
}

#[test]
fn expansions_inside_double_quotes() {
    let ast = parse("A=\"x${B}y\"", None).unwrap();
    assert_eq!(ast, vec![assign("A", vec![chars("x"), expansion("B", Operator::IfUnset, vec![]), chars("y")])]);
}

#[test]
fn simple_variable_reference() {
    let ast = parse("A=$B/c", None).unwrap();
    assert_eq!(ast, vec![assign("A", vec![expansion("B", Operator::IfUnset, vec![]), chars("/c")])]);
}

#[test]
fn all_eight_operators() {
    let cases = [
        ("-", Operator::IfUnset),
        (":-", Operator::IfUnsetOrNull),
        ("+", Operator::IfSet),
        (":+", Operator::IfSetAndNotNull),
        ("=", Operator::AssignIfUnset),
        (":=", Operator::AssignIfUnsetOrNull),
        ("?", Operator::ErrorIfUnset),
        (":?", Operator::ErrorIfUnsetOrNull),
    ];
    for (token, operator) in cases {
        let input = format!("A=${{V{token}w}}");
        let ast = parse(&input, None).unwrap();
        assert_eq!(ast, vec![assign("A", vec![expansion("V", operator, vec![chars("w")])])]);
    }
}

#[test]
fn empty_word_and_bare_braces() {
    assert_eq!(parse("A=${V:-}", None).unwrap(), vec![assign("A", vec![expansion("V", Operator::IfUnsetOrNull, vec![])])]);
    assert_eq!(parse("A=${V}", None).unwrap(), vec![assign("A", vec![expansion("V", Operator::IfUnset, vec![])])]);
}

#[test]
fn nested_expansion_parses_and_resolves() {
    let ast = parse("A=${B:-${C:-z}}", None).unwrap();
    let inner = expansion("C", Operator::IfUnsetOrNull, vec![chars("z")]);
    assert_eq!(ast, vec![assign("A", vec![expansion("B", Operator::IfUnsetOrNull, vec![inner])])]);
    let env = Scope::new();
    let mut ev = Evaluator::new(&env, false);
    ev.evaluate(ast).unwrap();
    assert_eq!(ev.into_scope().get("A"), Some("z".to_string()));
}

#[test]
fn nul_rejected_at_its_position() {
    let e = error_of("A=x\nB=y\0z");
    assert_eq!(e.kind(), &ErrorKind::NullCharacter);
    assert_eq!(where_of(&e), (2, 4));
    let q = error_of("A='a\0'");
    assert_eq!(q.kind(), &ErrorKind::NullCharacter);
    assert_eq!(where_of(&q), (1, 5));
    let first = error_of("\0A=1");
    assert_eq!(where_of(&first), (1, 1));
}

#[test]
fn unterminated_expansion_at_end_of_input() {
    let e = error_of("A=${VAR");
    assert_eq!(e.kind(), &ErrorKind::UnterminatedExpansion);
    assert_eq!(where_of(&e), (1, 8));
    let bare = error_of("A=${");
    assert_eq!(bare.kind(), &ErrorKind::UnterminatedExpansion);
    assert_eq!(where_of(&bare), (1, 5));
    let m = error_of("A=1\nB=${X:-abc\n");
    assert_eq!(m.kind(), &ErrorKind::UnterminatedExpansion);
    assert_eq!(where_of(&m), (3, 1));
}

#[test]
fn unterminated_quotes() {
    let s = error_of("A='abc");
    assert_eq!(s.kind(), &ErrorKind::UnterminatedSingleQuotedString);
    assert_eq!(where_of(&s), (1, 7));
    let d = error_of("A=\"abc\nmore");
    assert_eq!(d.kind(), &ErrorKind::UnterminatedDoubleQuotedString);
    assert_eq!(where_of(&d), (2, 5));
}

#[test]
fn escape_at_end_of_input() {
    let e = error_of("A=abc\\");
    assert_eq!(e.kind(), &ErrorKind::Eof);
    assert_eq!(where_of(&e), (1, 7));
    assert_eq!(error_of("A").kind(), &ErrorKind::Eof);
}

#[test]
fn unsupported_constructs() {
    assert_eq!(error_of("A=$(ls)").kind(), &ErrorKind::UnsupportedCommandExpansion);
    assert_eq!(error_of("A=$((1+2))").kind(), &ErrorKind::UnsupportedCommandOrArithmeticExpansion);
    assert_eq!(error_of("A=$1").kind(), &ErrorKind::UnsupportedShellParameter("$1".to_string()));
    assert_eq!(error_of("A=${@}").kind(), &ErrorKind::UnsupportedShellParameter("$@".to_string()));
}

#[test]
fn special_and_invalid_characters() {
    let s = error_of("A=a b");
    assert_eq!(s.kind(), &ErrorKind::UnescapedSpecialCharacter(' '));
    assert_eq!(where_of(&s), (1, 4));
    assert_eq!(error_of("A=${B%c}").kind(), &ErrorKind::InvalidCharacter('%'));
    assert_eq!(error_of("A:1").kind(), &ErrorKind::InvalidCharacter(':'));
    assert_eq!(error_of("1A=2").kind(), &ErrorKind::InvalidCharacter('1'));
}

#[test]
fn filename_is_carried_into_errors() {
    let e = parse("A=${B", Some("site.env".to_string())).unwrap_err();
    assert_eq!(e.file(), Some("site.env"));
    assert_eq!(e.message(), "Unterminated expansion in site.env on line 1, column 6");
}
