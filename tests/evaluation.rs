use envexpand::ast::{Assignment, Expansion, Expression, Operator};
use envexpand::evaluator::{EvaluationError, Evaluator};
use envexpand::scope::Scope;

fn chars(s: &str) -> Expression {
    Expression::Characters(s.to_string())
}

fn expansion(name: &str, operator: Operator, rhs: Vec<Expression>) -> Expression {
    Expression::Expansion(Expansion { name: name.to_string(), operator, rhs })
}

fn assign(name: &str, value: Vec<Expression>) -> Assignment {
    Assignment { name: name.to_string(), value }
}

fn env_of(pairs: &[(&str, &str)]) -> Scope {
    let mut s = Scope::new();
    for (k, v) in pairs {
        s.insert(k.to_string(), v.to_string());
    }
    s
}

fn run(env: &Scope, override_env: bool, ast: Vec<Assignment>) -> Result<Scope, EvaluationError> {
    let mut ev = Evaluator::new(env, override_env);
    ev.evaluate(ast)?;
    Ok(ev.into_scope())
}

fn value_of(env: &Scope, override_env: bool, value: Vec<Expression>) -> Result<String, EvaluationError> {
    let scope = run(env, override_env, vec![assign("OUT", value)])?;
    Ok(scope.get("OUT").unwrap())
}

#[test]
fn literal_assignment_yields_its_text() {
    let env = Scope::new();
    for flag in [false, true] {
        let scope = run(&env, flag, vec![assign("NAME", vec![chars("hello world")])]).unwrap();
        assert_eq!(scope.get("NAME"), Some("hello world".to_string()));
        assert_eq!(scope.get("OTHER"), None);
    }
}

#[test]
fn empty_value_is_kept() {
    let env = Scope::new();
    let scope = run(&env, false, vec![assign("E", vec![])]).unwrap();
    assert_eq!(scope.get("E"), Some(String::new()));
}

#[test]
fn segments_are_concatenated_in_order() {
    let env = env_of(&[("B", "mid")]);
    let v = value_of(&env, false, vec![chars("a-"), expansion("B", Operator::IfUnset, vec![]), chars("-z")]);
    assert_eq!(v.unwrap(), "a-mid-z");
}

#[test]
fn environment_wins_without_override() {
    let env = env_of(&[("FOO", "x")]);
    let ast = vec![assign("FOO", vec![chars("y"), expansion("SIDE", Operator::AssignIfUnset, vec![chars("effect")])])];
    let scope = run(&env, false, ast).unwrap();
    assert_eq!(scope.get("FOO"), Some("x".to_string()));
    assert!(!scope.contains_key("SIDE"));
}

#[test]
fn environment_wins_even_over_failing_value() {
    let env = env_of(&[("FOO", "x")]);
    let ast = vec![assign("FOO", vec![expansion("MISSING", Operator::ErrorIfUnset, vec![chars("boom")])])];
    let scope = run(&env, false, ast).unwrap();
    assert_eq!(scope.get("FOO"), Some("x".to_string()));
}

#[test]
fn local_wins_with_override() {
    let env = env_of(&[("FOO", "x")]);
    let scope = run(&env, true, vec![assign("FOO", vec![chars("y")])]).unwrap();
    assert_eq!(scope.get("FOO"), Some("y".to_string()));
}

#[test]
fn lookup_precedence_follows_the_flag() {
    let env = env_of(&[("V", "from-env")]);
    let ast = || vec![assign("V", vec![chars("local")]), assign("R", vec![expansion("V", Operator::IfUnset, vec![])])];
    let kept = run(&env, false, ast()).unwrap();
    assert_eq!(kept.get("R"), Some("from-env".to_string()));
    let overridden = run(&env, true, ast()).unwrap();
    assert_eq!(overridden.get("R"), Some("local".to_string()));
}

#[test]
fn scope_is_used_when_environment_lacks_name() {
    let env = Scope::new();
    let ast = vec![assign("A", vec![chars("1")]), assign("B", vec![expansion("A", Operator::IfUnset, vec![])])];
    let scope = run(&env, false, ast).unwrap();
    assert_eq!(scope.get("B"), Some("1".to_string()));
}

#[test]
fn default_if_unset_or_null() {
    let d = || vec![expansion("VAR", Operator::IfUnsetOrNull, vec![chars("default")])];
    assert_eq!(value_of(&Scope::new(), false, d()).unwrap(), "default");
    assert_eq!(value_of(&env_of(&[("VAR", "")]), false, d()).unwrap(), "default");
    assert_eq!(value_of(&env_of(&[("VAR", "v")]), false, d()).unwrap(), "v");
}

#[test]
fn default_if_unset_keeps_empty() {
    let d = || vec![expansion("VAR", Operator::IfUnset, vec![chars("default")])];
    assert_eq!(value_of(&env_of(&[("VAR", "")]), false, d()).unwrap(), "");
    assert_eq!(value_of(&Scope::new(), false, d()).unwrap(), "default");
    assert_eq!(value_of(&env_of(&[("VAR", "v")]), false, d()).unwrap(), "v");
}

#[test]
fn alternative_if_set() {
    let d = || vec![expansion("VAR", Operator::IfSet, vec![chars("alt")])];
    assert_eq!(value_of(&Scope::new(), false, d()).unwrap(), "");
    assert_eq!(value_of(&env_of(&[("VAR", "")]), false, d()).unwrap(), "alt");
    assert_eq!(value_of(&env_of(&[("VAR", "v")]), false, d()).unwrap(), "alt");
}

#[test]
fn alternative_if_set_and_not_null() {
    let d = || vec![expansion("VAR", Operator::IfSetAndNotNull, vec![chars("alt")])];
    assert_eq!(value_of(&Scope::new(), false, d()).unwrap(), "");
    assert_eq!(value_of(&env_of(&[("VAR", "")]), false, d()).unwrap(), "");
    assert_eq!(value_of(&env_of(&[("VAR", "v")]), false, d()).unwrap(), "alt");
}

#[test]
fn assign_if_unset_or_null_writes_through() {
    let ast = vec![
        assign("A", vec![expansion("VAR", Operator::AssignIfUnsetOrNull, vec![chars("default")])]),
        assign("B", vec![expansion("VAR", Operator::IfUnset, vec![])]),
    ];
    let scope = run(&Scope::new(), false, ast).unwrap();
    assert_eq!(scope.get("A"), Some("default".to_string()));
    assert_eq!(scope.get("B"), Some("default".to_string()));
    assert_eq!(scope.get("VAR"), Some("default".to_string()));
}

#[test]
fn assign_if_unset_or_null_replaces_empty() {
    let ast = vec![
        assign("VAR", vec![]),
        assign("A", vec![expansion("VAR", Operator::AssignIfUnsetOrNull, vec![chars("d")])]),
    ];
    let scope = run(&Scope::new(), false, ast).unwrap();
    assert_eq!(scope.get("A"), Some("d".to_string()));
    assert_eq!(scope.get("VAR"), Some("d".to_string()));
}

#[test]
fn assign_if_unset_keeps_empty() {
    let ast = vec![
        assign("VAR", vec![]),
        assign("A", vec![expansion("VAR", Operator::AssignIfUnset, vec![chars("d")])]),
    ];
    let scope = run(&Scope::new(), false, ast).unwrap();
    assert_eq!(scope.get("A"), Some(String::new()));
    assert_eq!(scope.get("VAR"), Some(String::new()));
}

#[test]
fn assignment_lands_in_scope_not_environment() {
    let env = Scope::new();
    let ast = vec![assign("A", vec![expansion("VAR", Operator::AssignIfUnset, vec![chars("d")])])];
    let scope = run(&env, false, ast).unwrap();
    assert_eq!(scope.get("VAR"), Some("d".to_string()));
    assert!(!env.contains_key("VAR"));
}

#[test]
fn error_if_unset_or_null() {
    let d = || vec![expansion("VAR", Operator::ErrorIfUnsetOrNull, vec![chars("missing")])];
    let unset = value_of(&Scope::new(), false, d()).unwrap_err();
    assert_eq!(unset, EvaluationError::UndefinedVariable("VAR".to_string(), "missing".to_string()));
    let empty = value_of(&env_of(&[("VAR", "")]), false, d()).unwrap_err();
    assert_eq!(empty, EvaluationError::EmptyValue("VAR".to_string(), "missing".to_string()));
    assert_eq!(value_of(&env_of(&[("VAR", "v")]), false, d()).unwrap(), "v");
}

#[test]
fn error_if_unset() {
    let d = || vec![expansion("VAR", Operator::ErrorIfUnset, vec![chars("needed "), expansion("W", Operator::IfUnset, vec![chars("here")])])];
    let unset = value_of(&Scope::new(), false, d()).unwrap_err();
    assert_eq!(unset, EvaluationError::UndefinedVariable("VAR".to_string(), "needed here".to_string()));
    assert_eq!(value_of(&env_of(&[("VAR", "")]), false, d()).unwrap(), "");
}

#[test]
fn error_messages_render() {
    let u = EvaluationError::UndefinedVariable("VAR".to_string(), "missing".to_string());
    assert_eq!(u.message(), "Undefined variable $VAR missing");
    let e = EvaluationError::EmptyValue("VAR".to_string(), "missing".to_string());
    assert_eq!(e.message(), "Missing required value for variable $VAR missing");
}

#[test]
fn error_stops_evaluation() {
    let ast = vec![
        assign("A", vec![chars("1")]),
        assign("B", vec![expansion("X", Operator::ErrorIfUnset, vec![chars("m")])]),
        assign("C", vec![chars("3")]),
    ];
    let env = Scope::new();
    let mut ev = Evaluator::new(&env, false);
    assert_eq!(ev.evaluate(ast), Err(EvaluationError::UndefinedVariable("X".to_string(), "m".to_string())));
}

#[test]
fn nested_default() {
    let inner = expansion("C", Operator::IfUnsetOrNull, vec![chars("z")]);
    let ast = vec![assign("A", vec![expansion("B", Operator::IfUnsetOrNull, vec![inner])])];
    let scope = run(&Scope::new(), false, ast).unwrap();
    assert_eq!(scope.get("A"), Some("z".to_string()));
}

#[test]
fn resolved_scope_round_trip() {
    let pairs = [("A", "1"), ("B", ""), ("C", "three")];
    let resolved = env_of(&pairs);
    for flag in [false, true] {
        let ast = pairs.iter().map(|(k, v)| assign(k, vec![chars(v)])).collect();
        let again = run(&resolved, flag, ast).unwrap();
        for (k, v) in pairs {
            assert_eq!(again.get(k), Some(v.to_string()));
        }
        assert!(!again.contains_key("D"));
    }
}

#[test]
fn later_assignment_overwrites() {
    let ast = vec![assign("A", vec![chars("1")]), assign("A", vec![chars("2")])];
    let scope = run(&Scope::new(), false, ast).unwrap();
    assert_eq!(scope.get("A"), Some("2".to_string()));
}

#[test]
fn scope_insert_and_get() {
    let mut s = Scope::new();
    assert_eq!(s.get("K"), None);
    s.insert("K".to_string(), "v1".to_string());
    s.insert("L".to_string(), "w".to_string());
    s.insert("K".to_string(), "v2".to_string());
    assert_eq!(s.get("K"), Some("v2".to_string()));
    assert_eq!(s.get("L"), Some("w".to_string()));
    assert!(s.contains_key("L"));
    assert!(!s.contains_key("M"));
}
