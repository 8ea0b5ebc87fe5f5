use vstd::prelude::*;

verus! {

/// The eight parameter-expansion operators.
#[derive(Debug, Clone, Copy, PartialEq, Eq, Structural)]
pub enum Operator {
    /// `${NAME-word}`
    IfUnset,
    /// `${NAME:-word}`
    IfUnsetOrNull,
    /// `${NAME+word}`
    IfSet,
    /// `${NAME:+word}`
    IfSetAndNotNull,
    /// `${NAME=word}`
    AssignIfUnset,
    /// `${NAME:=word}`
    AssignIfUnsetOrNull,
    /// `${NAME?word}`
    ErrorIfUnset,
    /// `${NAME:?word}`
    ErrorIfUnsetOrNull,
}

/// One segment of a value: literal text or an expansion.
#[derive(Debug, PartialEq, Eq)]
pub enum Expression {
    Characters(String),
    Expansion(Expansion),
}

/// `${name <operator> rhs}`, where `rhs` is evaluated only when the operator needs it.
#[derive(Debug, PartialEq, Eq)]
pub struct Expansion {
    pub name: String,
    pub operator: Operator,
    pub rhs: Vec<Expression>,
}

/// One declaration `name=value`.
#[derive(Debug, PartialEq, Eq)]
pub struct Assignment {
    pub name: String,
    pub value: Vec<Expression>,
}

/// `es` is one literal segment whose text is `t`.
pub open spec fn is_literal(es: Seq<Expression>, t: Seq<char>) -> bool {
    es.len() == 1 && (es[0] matches Expression::Characters(c) && c@ == t)
}

/// `es` is the value written as the plain text `t`: no segment when `t` is
/// empty, one literal segment otherwise.
pub open spec fn is_plain_value(es: Seq<Expression>, t: Seq<char>) -> bool {
    if t.len() == 0 {
        es.len() == 0
    } else {
        is_literal(es, t)
    }
}

} // verus!
