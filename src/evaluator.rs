use vstd::prelude::*;
use vstd::string::StringExecFns;

use crate::ast::{Assignment, Expansion, Expression, Operator};
use crate::env::EnvProvider;
use crate::scope::{lookup, opt_view, Scope};

verus! {

broadcast use {
    vstd::seq::axiom_seq_index_decreases,
    vstd::seq::axiom_seq_subrange_decreases,
    vstd::std_specs::vec::axiom_vec_decreases_to_view,
};

/// A failure of evaluation: the input is well formed but names a variable
/// that an error-raising operator requires.
#[derive(Debug, PartialEq, Eq)]
#[non_exhaustive]
pub enum EvaluationError {
    /// The variable (first field) is unset; the second field is the evaluated message.
    UndefinedVariable(String, String),
    /// The variable (first field) is set to the empty string; the second field is the evaluated message.
    EmptyValue(String, String),
}

/// What an [`EvaluationError`] states, as character sequences.
pub enum Fault {
    Undefined(Seq<char>, Seq<char>),
    Empty(Seq<char>, Seq<char>),
}

impl View for EvaluationError {
    type V = Fault;

    open spec fn view(&self) -> Fault {
        match self {
            EvaluationError::UndefinedVariable(n, m) => Fault::Undefined(n@, m@),
            EvaluationError::EmptyValue(n, m) => Fault::Empty(n@, m@),
        }
    }
}

/// The rendering of an evaluation error.
pub open spec fn fault_text(f: Fault) -> Seq<char> {
    match f {
        Fault::Undefined(n, m) => "Undefined variable $"@ + n + " "@ + m,
        Fault::Empty(n, m) => "Missing required value for variable $"@ + n + " "@ + m,
    }
}

impl EvaluationError {
    /// The human-readable message of this error.
    pub fn message(&self) -> (r: String)
        ensures
            r@ == fault_text(self@),
    {
        let mut s = String::new();
        match self {
            EvaluationError::UndefinedVariable(n, m) => {
                s.append("Undefined variable $");
                s.append(n.as_str());
                s.append(" ");
                s.append(m.as_str());
            },
            EvaluationError::EmptyValue(n, m) => {
                s.append("Missing required value for variable $");
                s.append(n.as_str());
                s.append(" ");
                s.append(m.as_str());
            },
        }
        s
    }
}

/// The value of `name` under the precedence rule: with `override_env` the
/// local scope is asked first, otherwise the environment is.
pub open spec fn resolved(
    env: Map<Seq<char>, Seq<char>>,
    override_env: bool,
    scope: Map<Seq<char>, Seq<char>>,
    name: Seq<char>,
) -> Option<Seq<char>> {
    if override_env {
        if scope.contains_key(name) {
            Some(scope[name])
        } else {
            lookup(env, name)
        }
    } else {
        if env.contains_key(name) {
            Some(env[name])
        } else {
            lookup(scope, name)
        }
    }
}

/// Unset, or set to the empty string.
pub open spec fn is_null(v: Option<Seq<char>>) -> bool {
    match v {
        None => true,
        Some(s) => s.len() == 0,
    }
}

/// `r` with `p` put in front of its text.
pub open spec fn prepend(
    p: Seq<char>,
    r: Result<(Seq<char>, Map<Seq<char>, Seq<char>>), Fault>,
) -> Result<(Seq<char>, Map<Seq<char>, Seq<char>>), Fault> {
    match r {
        Ok((t, s)) => Ok((p + t, s)),
        Err(f) => Err(f),
    }
}

/// `r`, with its text also written into its scope under `name`.
pub open spec fn assigned(
    name: Seq<char>,
    r: Result<(Seq<char>, Map<Seq<char>, Seq<char>>), Fault>,
) -> Result<(Seq<char>, Map<Seq<char>, Seq<char>>), Fault> {
    match r {
        Ok((t, s)) => Ok((t, s.insert(name, t))),
        Err(f) => Err(f),
    }
}

/// The failure for `name`, with the text of `r` as its message.
pub open spec fn failed(
    name: Seq<char>,
    r: Result<(Seq<char>, Map<Seq<char>, Seq<char>>), Fault>,
    empty: bool,
) -> Result<(Seq<char>, Map<Seq<char>, Seq<char>>), Fault> {
    match r {
        Ok((t, _)) => if empty {
            Err(Fault::Empty(name, t))
        } else {
            Err(Fault::Undefined(name, t))
        },
        Err(f) => Err(f),
    }
}

/// The text of a sequence of expressions and the scope after it, evaluated
/// left to right from `scope`.
pub open spec fn eval_seq(
    env: Map<Seq<char>, Seq<char>>,
    override_env: bool,
    scope: Map<Seq<char>, Seq<char>>,
    es: Seq<Expression>,
) -> Result<(Seq<char>, Map<Seq<char>, Seq<char>>), Fault>
    decreases es,
{
    if es.len() == 0 {
        Ok((Seq::empty(), scope))
    } else {
        let first = match es[0] {
            Expression::Characters(c) => Ok((c@, scope)),
            Expression::Expansion(x) => eval_expansion(env, override_env, scope, x),
        };
        match first {
            Ok((t, s)) => prepend(t, eval_seq(env, override_env, s, es.subrange(1, es.len() as int))),
            Err(f) => Err(f),
        }
    }
}

/// The text of one expansion and the scope after it.
pub open spec fn eval_expansion(
    env: Map<Seq<char>, Seq<char>>,
    override_env: bool,
    scope: Map<Seq<char>, Seq<char>>,
    x: Expansion,
) -> Result<(Seq<char>, Map<Seq<char>, Seq<char>>), Fault>
    decreases x,
{
    let value = resolved(env, override_env, scope, x.name@);
    let unset = value is None;
    let null = is_null(value);
    let rhs = eval_seq(env, override_env, scope, x.rhs@);
    let keep = Ok((value.unwrap(), scope));
    let empty = Ok((Seq::empty(), scope));
    match x.operator {
        Operator::IfUnset => if unset { rhs } else { keep },
        Operator::IfUnsetOrNull => if null { rhs } else { keep },
        Operator::IfSet => if unset { empty } else { rhs },
        Operator::IfSetAndNotNull => if null { empty } else { rhs },
        Operator::AssignIfUnset => if unset { assigned(x.name@, rhs) } else { keep },
        Operator::AssignIfUnsetOrNull => if null { assigned(x.name@, rhs) } else { keep },
        Operator::ErrorIfUnset => if unset { failed(x.name@, rhs, false) } else { keep },
        Operator::ErrorIfUnsetOrNull => if unset {
            failed(x.name@, rhs, false)
        } else if null {
            failed(x.name@, rhs, true)
        } else {
            keep
        },
    }
}

/// The scope after one assignment. Without `override_env`, a name that the
/// environment defines takes the environment's value and its right-hand side
/// is not evaluated.
pub open spec fn eval_assignment(
    env: Map<Seq<char>, Seq<char>>,
    override_env: bool,
    scope: Map<Seq<char>, Seq<char>>,
    a: Assignment,
) -> Result<Map<Seq<char>, Seq<char>>, Fault> {
    if !override_env && env.contains_key(a.name@) {
        Ok(scope.insert(a.name@, env[a.name@]))
    } else {
        match eval_seq(env, override_env, scope, a.value@) {
            Ok((t, s)) => Ok(s.insert(a.name@, t)),
            Err(f) => Err(f),
        }
    }
}

/// The scope after a sequence of assignments, in order.
pub open spec fn eval_all(
    env: Map<Seq<char>, Seq<char>>,
    override_env: bool,
    scope: Map<Seq<char>, Seq<char>>,
    asgs: Seq<Assignment>,
) -> Result<Map<Seq<char>, Seq<char>>, Fault>
    decreases asgs.len(),
{
    if asgs.len() == 0 {
        Ok(scope)
    } else {
        match eval_assignment(env, override_env, scope, asgs[0]) {
            Ok(s) => eval_all(env, override_env, s, asgs.subrange(1, asgs.len() as int)),
            Err(f) => Err(f),
        }
    }
}

/// `r` and `scope` are what `expected` gives.
pub open spec fn text_outcome(
    r: Result<String, EvaluationError>,
    scope: Map<Seq<char>, Seq<char>>,
    expected: Result<(Seq<char>, Map<Seq<char>, Seq<char>>), Fault>,
) -> bool {
    match expected {
        Ok((t, s)) => r matches Ok(v) && v@ == t && scope == s,
        Err(f) => r matches Err(e) && e@ == f,
    }
}

/// `r` and `scope` are what `expected` gives.
pub open spec fn scope_outcome(
    r: Result<(), EvaluationError>,
    scope: Map<Seq<char>, Seq<char>>,
    expected: Result<Map<Seq<char>, Seq<char>>, Fault>,
) -> bool {
    match expected {
        Ok(s) => r is Ok && scope == s,
        Err(f) => r matches Err(e) && e@ == f,
    }
}

proof fn lemma_prepend_twice(
    a: Seq<char>,
    b: Seq<char>,
    r: Result<(Seq<char>, Map<Seq<char>, Seq<char>>), Fault>,
)
    ensures
        prepend(a, prepend(b, r)) == prepend(a + b, r),
{
    match r {
        Ok((t, s)) => {
            assert(a + (b + t) =~= (a + b) + t);
        },
        Err(f) => {},
    }
}

proof fn lemma_prepend_empty(r: Result<(Seq<char>, Map<Seq<char>, Seq<char>>), Fault>)
    ensures
        prepend(Seq::empty(), r) == r,
{
    match r {
        Ok((t, s)) => {
            assert(Seq::<char>::empty() + t =~= t);
        },
        Err(f) => {},
    }
}

/// Evaluates assignments in order against an environment, building a scope.
pub struct Evaluator<'a, T> where T: EnvProvider {
    env: &'a T,
    scope: Scope,
    override_env: bool,
}

impl<'a, T> Evaluator<'a, T> where T: EnvProvider {
    /// The variables of the environment.
    pub closed spec fn env_vars(&self) -> Map<Seq<char>, Seq<char>> {
        self.env.vars()
    }

    /// The scope built so far.
    pub closed spec fn scope_view(&self) -> Map<Seq<char>, Seq<char>> {
        self.scope@
    }

    /// Whether local values take precedence over the environment.
    pub closed spec fn overrides(&self) -> bool {
        self.override_env
    }

    /// An evaluator over `env` with an empty scope.
    pub fn new(env: &'a T, override_env: bool) -> (r: Self)
        ensures
            r.env_vars() == env.vars(),
            r.overrides() == override_env,
            r.scope_view() == Map::<Seq<char>, Seq<char>>::empty(),
    {
        Evaluator { env, override_env, scope: Scope::new() }
    }

    /// Evaluates `ast` in order, storing each assignment in the scope.
    /// Stops at the first error; the scope is then not meaningful.
    pub fn evaluate(&mut self, ast: Vec<Assignment>) -> (r: Result<(), EvaluationError>)
        ensures
            final(self).env_vars() == old(self).env_vars(),
            final(self).overrides() == old(self).overrides(),
            scope_outcome(
                r,
                final(self).scope_view(),
                eval_all(old(self).env_vars(), old(self).overrides(), old(self).scope_view(), ast@),
            ),
    {
        let ghost whole = eval_all(self.env_vars(), self.overrides(), self.scope_view(), ast@);
        proof {
            assert(ast@.subrange(0, ast.len() as int) =~= ast@);
        }
        let mut i: usize = 0;
        while i < ast.len()
            invariant
                0 <= i <= ast.len(),
                self.env_vars() == old(self).env_vars(),
                self.overrides() == old(self).overrides(),
                whole == eval_all(old(self).env_vars(), old(self).overrides(), old(self).scope_view(), ast@),
                whole == eval_all(
                    self.env_vars(),
                    self.overrides(),
                    self.scope_view(),
                    ast@.subrange(i as int, ast.len() as int),
                ),
            decreases ast.len() - i,
        {
            proof {
                let rest = ast@.subrange(i as int, ast.len() as int);
                assert(rest[0] == ast@[i as int]);
                assert(rest.subrange(1, rest.len() as int) =~= ast@.subrange(i + 1, ast.len() as int));
            }
            match self.evaluate_assignment(&ast[i]) {
                Ok(()) => {},
                Err(e) => {
                    return Err(e);
                },
            }
            i = i + 1;
        }
        Ok(())
    }

    /// The scope that evaluation has built.
    pub fn into_scope(self) -> (r: Scope)
        ensures
            r@ == self.scope_view(),
    {
        self.scope
    }

    fn evaluate_assignment(&mut self, node: &Assignment) -> (r: Result<(), EvaluationError>)
        ensures
            final(self).env_vars() == old(self).env_vars(),
            final(self).overrides() == old(self).overrides(),
            scope_outcome(
                r,
                final(self).scope_view(),
                eval_assignment(old(self).env_vars(), old(self).overrides(), old(self).scope_view(), *node),
            ),
    {
        let from_env = if self.override_env {
            None
        } else {
            self.env.var(node.name.as_str())
        };
        let value = match from_env {
            Some(v) => v,
            None => match self.evaluate_expression(&node.value) {
                Ok(v) => v,
                Err(e) => {
                    return Err(e);
                },
            },
        };
        self.scope.insert(node.name.clone(), value);
        Ok(())
    }

    fn evaluate_expression(&mut self, nodes: &Vec<Expression>) -> (r: Result<String, EvaluationError>)
        ensures
            final(self).env_vars() == old(self).env_vars(),
            final(self).overrides() == old(self).overrides(),
            text_outcome(
                r,
                final(self).scope_view(),
                eval_seq(old(self).env_vars(), old(self).overrides(), old(self).scope_view(), nodes@),
            ),
        decreases nodes@, 1int,
    {
        let ghost whole = eval_seq(self.env_vars(), self.overrides(), self.scope_view(), nodes@);
        let mut result = String::new();
        proof {
            assert(nodes@.subrange(0, nodes.len() as int) =~= nodes@);
            lemma_prepend_empty(whole);
        }
        let mut i: usize = 0;
        while i < nodes.len()
            invariant
                0 <= i <= nodes.len(),
                self.env_vars() == old(self).env_vars(),
                self.overrides() == old(self).overrides(),
                whole == eval_seq(old(self).env_vars(), old(self).overrides(), old(self).scope_view(), nodes@),
                whole == prepend(
                    result@,
                    eval_seq(
                        self.env_vars(),
                        self.overrides(),
                        self.scope_view(),
                        nodes@.subrange(i as int, nodes.len() as int),
                    ),
                ),
            decreases nodes.len() - i,
        {
            let ghost rest = nodes@.subrange(i as int, nodes.len() as int);
            let ghost tail = nodes@.subrange(i + 1, nodes.len() as int);
            proof {
                assert(rest[0] == nodes@[i as int]);
                assert(rest.subrange(1, rest.len() as int) =~= tail);
            }
            let node = &nodes[i];
            let ghost before = result@;
            match node {
                Expression::Characters(c) => {
                    result.append(c.as_str());
                    proof {
                        lemma_prepend_twice(
                            before,
                            c@,
                            eval_seq(self.env_vars(), self.overrides(), self.scope_view(), tail),
                        );
                    }
                },
                Expression::Expansion(x) => {
                    match self.evaluate_expansion(x) {
                        Ok(t) => {
                            result.append(t.as_str());
                            proof {
                                lemma_prepend_twice(
                                    before,
                                    t@,
                                    eval_seq(self.env_vars(), self.overrides(), self.scope_view(), tail),
                                );
                            }
                        },
                        Err(e) => {
                            return Err(e);
                        },
                    }
                },
            }
            i = i + 1;
        }
        proof {
            assert(result@ + Seq::<char>::empty() =~= result@);
        }
        Ok(result)
    }

    fn evaluate_expansion(&mut self, expr: &Expansion) -> (r: Result<String, EvaluationError>)
        ensures
            final(self).env_vars() == old(self).env_vars(),
            final(self).overrides() == old(self).overrides(),
            text_outcome(
                r,
                final(self).scope_view(),
                eval_expansion(old(self).env_vars(), old(self).overrides(), old(self).scope_view(), *expr),
            ),
        decreases *expr, 0int,
    {
        let value = self.resolve(&expr.name);
        let unset = value.is_none();
        let null = match &value {
            None => true,
            Some(v) => v.as_str().is_empty(),
        };
        match expr.operator {
            Operator::IfUnset => if unset {
                self.evaluate_expression(&expr.rhs)
            } else {
                Ok(value.unwrap())
            },
            Operator::IfUnsetOrNull => if null {
                self.evaluate_expression(&expr.rhs)
            } else {
                Ok(value.unwrap())
            },
            Operator::IfSet => if unset {
                Ok(String::new())
            } else {
                self.evaluate_expression(&expr.rhs)
            },
            Operator::IfSetAndNotNull => if null {
                Ok(String::new())
            } else {
                self.evaluate_expression(&expr.rhs)
            },
            Operator::AssignIfUnset => if unset {
                self.assign_op(&expr.name, &expr.rhs)
            } else {
                Ok(value.unwrap())
            },
            Operator::AssignIfUnsetOrNull => if null {
                self.assign_op(&expr.name, &expr.rhs)
            } else {
                Ok(value.unwrap())
            },
            Operator::ErrorIfUnset => if unset {
                self.error_op(&expr.name, &expr.rhs, false)
            } else {
                Ok(value.unwrap())
            },
            Operator::ErrorIfUnsetOrNull => if unset {
                self.error_op(&expr.name, &expr.rhs, false)
            } else if null {
                self.error_op(&expr.name, &expr.rhs, true)
            } else {
                Ok(value.unwrap())
            },
        }
    }

    fn resolve(&self, name: &String) -> (r: Option<String>)
        ensures
            opt_view(r) == resolved(self.env_vars(), self.overrides(), self.scope_view(), name@),
    {
        if self.override_env {
            match self.scope.get(name.as_str()) {
                Some(v) => Some(v),
                None => self.env.var(name.as_str()),
            }
        } else {
            match self.env.var(name.as_str()) {
                Some(v) => Some(v),
                None => self.scope.get(name.as_str()),
            }
        }
    }

    fn assign_op(&mut self, name: &String, expr: &Vec<Expression>) -> (r: Result<String, EvaluationError>)
        ensures
            final(self).env_vars() == old(self).env_vars(),
            final(self).overrides() == old(self).overrides(),
            text_outcome(
                r,
                final(self).scope_view(),
                assigned(name@, eval_seq(old(self).env_vars(), old(self).overrides(), old(self).scope_view(), expr@)),
            ),
        decreases expr@, 2int,
    {
        let value = match self.evaluate_expression(expr) {
            Ok(v) => v,
            Err(e) => {
                return Err(e);
            },
        };
        self.scope.insert(name.clone(), value.clone());
        Ok(value)
    }

    fn error_op(&mut self, name: &String, expr: &Vec<Expression>, require_value: bool) -> (r: Result<String, EvaluationError>)
        ensures
            final(self).env_vars() == old(self).env_vars(),
            final(self).overrides() == old(self).overrides(),
            text_outcome(
                r,
                final(self).scope_view(),
                failed(name@, eval_seq(old(self).env_vars(), old(self).overrides(), old(self).scope_view(), expr@), require_value),
            ),
        decreases expr@, 2int,
    {
        let message = match self.evaluate_expression(expr) {
            Ok(v) => v,
            Err(e) => {
                return Err(e);
            },
        };
        if require_value {
            Err(EvaluationError::EmptyValue(name.clone(), message))
        } else {
            Err(EvaluationError::UndefinedVariable(name.clone(), message))
        }
    }
}

} // verus!
