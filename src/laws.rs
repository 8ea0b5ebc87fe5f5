use vstd::prelude::*;

use crate::ast::{is_literal, is_plain_value, Assignment, Expansion, Expression, Operator};
use crate::evaluator::{eval_all, eval_assignment, eval_expansion, eval_seq, resolved, Fault};

verus! {

/// The names that the assignments of `asgs` assign.
pub open spec fn assigned_names(asgs: Seq<Assignment>) -> Set<Seq<char>> {
    Set::new(|k: Seq<char>| exists|i: int| 0 <= i < asgs.len() && asgs[i].name@ == k)
}

/// A literal value evaluates to its text and leaves the scope alone.
pub proof fn lemma_literal_value(
    env: Map<Seq<char>, Seq<char>>,
    override_env: bool,
    scope: Map<Seq<char>, Seq<char>>,
    es: Seq<Expression>,
    t: Seq<char>,
)
    requires
        is_literal(es, t),
    ensures
        eval_seq(env, override_env, scope, es) == Ok::<_, Fault>((t, scope)),
{
    let rest = es.subrange(1, es.len() as int);
    assert(rest.len() == 0);
    assert(eval_seq(env, override_env, scope, rest) == Ok::<_, Fault>((Seq::<char>::empty(), scope)));
    assert(t + Seq::<char>::empty() =~= t);
}

/// A single assignment `NAME=text`, with `text` plain, whose name the
/// environment does not define yields a scope that holds exactly `NAME`
/// with that text. This is the value that parsing `NAME=text` gives.
pub proof fn lemma_single_literal(
    env: Map<Seq<char>, Seq<char>>,
    override_env: bool,
    a: Assignment,
    t: Seq<char>,
)
    requires
        is_plain_value(a.value@, t),
        !env.contains_key(a.name@),
    ensures
        eval_all(env, override_env, Map::empty(), seq![a]) == Ok::<_, Fault>(
            map![a.name@ => t],
        ),
{
    if t.len() == 0 {
        assert(t =~= Seq::<char>::empty());
        assert(eval_seq(env, override_env, Map::empty(), a.value@) == Ok::<_, Fault>((t, Map::<Seq<char>, Seq<char>>::empty())));
    } else {
        lemma_literal_value(env, override_env, Map::empty(), a.value@, t);
    }
    let asgs = seq![a];
    assert(asgs[0] == a);
    let rest = asgs.subrange(1, 1);
    assert(rest.len() == 0);
    let s = Map::<Seq<char>, Seq<char>>::empty().insert(a.name@, t);
    assert(eval_all(env, override_env, s, rest) == Ok::<_, Fault>(s));
    assert(s =~= map![a.name@ => t]);
}

/// Without `override_env`, a name that the environment defines takes the
/// environment's value, and nothing else in the scope changes: the
/// right-hand side, whatever it holds, is not evaluated.
pub proof fn lemma_environment_wins(
    env: Map<Seq<char>, Seq<char>>,
    scope: Map<Seq<char>, Seq<char>>,
    a: Assignment,
)
    requires
        env.contains_key(a.name@),
    ensures
        eval_assignment(env, false, scope, a) == Ok::<_, Fault>(scope.insert(a.name@, env[a.name@])),
{
}

/// With `override_env`, a literal assignment takes its own text even where
/// the environment defines the name.
pub proof fn lemma_local_wins(
    env: Map<Seq<char>, Seq<char>>,
    scope: Map<Seq<char>, Seq<char>>,
    a: Assignment,
    t: Seq<char>,
)
    requires
        is_literal(a.value@, t),
    ensures
        eval_assignment(env, true, scope, a) == Ok::<_, Fault>(scope.insert(a.name@, t)),
{
    lemma_literal_value(env, true, scope, a.value@, t);
}

/// `${VAR:-default}` yields the default when VAR is unset or empty, and
/// VAR's value otherwise.
pub proof fn lemma_default_if_unset_or_null(
    env: Map<Seq<char>, Seq<char>>,
    override_env: bool,
    scope: Map<Seq<char>, Seq<char>>,
    x: Expansion,
    d: Seq<char>,
)
    requires
        x.operator == Operator::IfUnsetOrNull,
        is_literal(x.rhs@, d),
    ensures
        ({
            let v = resolved(env, override_env, scope, x.name@);
            eval_expansion(env, override_env, scope, x) == Ok::<_, Fault>(
                (
                    if v is None || v.unwrap().len() == 0 {
                        d
                    } else {
                        v.unwrap()
                    },
                    scope,
                ),
            )
        }),
{
    lemma_literal_value(env, override_env, scope, x.rhs@, d);
}

/// `${VAR-default}` keeps a value that is set but empty.
pub proof fn lemma_empty_kept_if_set(
    env: Map<Seq<char>, Seq<char>>,
    override_env: bool,
    scope: Map<Seq<char>, Seq<char>>,
    x: Expansion,
)
    requires
        x.operator == Operator::IfUnset,
        resolved(env, override_env, scope, x.name@) == Some(Seq::<char>::empty()),
    ensures
        eval_expansion(env, override_env, scope, x) == Ok::<_, Fault>((Seq::<char>::empty(), scope)),
{
}

/// `${VAR:=default}` with VAR unset yields the default and writes it into the
/// scope, so that VAR then resolves to the default.
pub proof fn lemma_assign_writes_through(
    env: Map<Seq<char>, Seq<char>>,
    override_env: bool,
    scope: Map<Seq<char>, Seq<char>>,
    x: Expansion,
    d: Seq<char>,
)
    requires
        x.operator == Operator::AssignIfUnsetOrNull,
        is_literal(x.rhs@, d),
        resolved(env, override_env, scope, x.name@) is None,
    ensures
        eval_expansion(env, override_env, scope, x) == Ok::<_, Fault>((d, scope.insert(x.name@, d))),
        resolved(env, override_env, scope.insert(x.name@, d), x.name@) == Some(d),
{
    lemma_literal_value(env, override_env, scope, x.rhs@, d);
}

/// `${VAR:?message}` fails with an undefined-variable error when VAR is
/// unset, and with an empty-value error when VAR is empty; both carry the
/// message.
pub proof fn lemma_error_if_unset_or_null(
    env: Map<Seq<char>, Seq<char>>,
    override_env: bool,
    scope: Map<Seq<char>, Seq<char>>,
    x: Expansion,
    m: Seq<char>,
)
    requires
        x.operator == Operator::ErrorIfUnsetOrNull,
        is_literal(x.rhs@, m),
    ensures
        resolved(env, override_env, scope, x.name@) is None ==> eval_expansion(
            env,
            override_env,
            scope,
            x,
        ) == Err::<(Seq<char>, Map<Seq<char>, Seq<char>>), _>(Fault::Undefined(x.name@, m)),
        resolved(env, override_env, scope, x.name@) == Some(Seq::<char>::empty()) ==> eval_expansion(
            env,
            override_env,
            scope,
            x,
        ) == Err::<(Seq<char>, Map<Seq<char>, Seq<char>>), _>(Fault::Empty(x.name@, m)),
{
    lemma_literal_value(env, override_env, scope, x.rhs@, m);
}

proof fn lemma_resolved_suffix(
    m: Map<Seq<char>, Seq<char>>,
    override_env: bool,
    scope: Map<Seq<char>, Seq<char>>,
    asgs: Seq<Assignment>,
)
    requires
        forall|i: int|
            0 <= i < asgs.len() ==> m.contains_key(#[trigger] asgs[i].name@) && is_literal(
                asgs[i].value@,
                m[asgs[i].name@],
            ),
    ensures
        eval_all(m, override_env, scope, asgs) == Ok::<_, Fault>(
            scope.union_prefer_right(m.restrict(assigned_names(asgs))),
        ),
    decreases asgs.len(),
{
    if asgs.len() == 0 {
        assert(scope.union_prefer_right(m.restrict(assigned_names(asgs))) =~= scope);
    } else {
        let a = asgs[0];
        let rest = asgs.subrange(1, asgs.len() as int);
        assert(m.contains_key(a.name@));
        lemma_literal_value(m, override_env, scope, a.value@, m[a.name@]);
        let s1 = scope.insert(a.name@, m[a.name@]);
        assert(eval_assignment(m, override_env, scope, a) == Ok::<_, Fault>(s1));
        assert forall|i: int| 0 <= i < rest.len() implies m.contains_key(#[trigger] rest[i].name@)
            && is_literal(rest[i].value@, m[rest[i].name@]) by {
            assert(rest[i] == asgs[i + 1]);
        }
        lemma_resolved_suffix(m, override_env, s1, rest);
        let lhs = s1.union_prefer_right(m.restrict(assigned_names(rest)));
        let rhs = scope.union_prefer_right(m.restrict(assigned_names(asgs)));
        assert forall|k: Seq<char>| assigned_names(asgs).contains(k) <==> (k == a.name@
            || assigned_names(rest).contains(k)) by {
            if assigned_names(asgs).contains(k) {
                let i = choose|i: int| 0 <= i < asgs.len() && asgs[i].name@ == k;
                if i > 0 {
                    assert(rest[i - 1] == asgs[i]);
                }
            }
            if assigned_names(rest).contains(k) {
                let i = choose|i: int| 0 <= i < rest.len() && rest[i].name@ == k;
                assert(rest[i] == asgs[i + 1]);
            }
            if k == a.name@ {
                assert(asgs[0].name@ == k);
            }
        }
        assert(lhs =~= rhs);
    }
}

/// Evaluating fully resolved assignments against the scope they describe,
/// as the environment, gives back that scope, with either precedence.
pub proof fn lemma_resolved_round_trip(
    m: Map<Seq<char>, Seq<char>>,
    override_env: bool,
    asgs: Seq<Assignment>,
)
    requires
        forall|i: int|
            0 <= i < asgs.len() ==> m.contains_key(#[trigger] asgs[i].name@) && is_literal(
                asgs[i].value@,
                m[asgs[i].name@],
            ),
        forall|k: Seq<char>| m.contains_key(k) ==> #[trigger] assigned_names(asgs).contains(k),
    ensures
        eval_all(m, override_env, Map::empty(), asgs) == Ok::<_, Fault>(m),
{
    lemma_resolved_suffix(m, override_env, Map::empty(), asgs);
    assert(Map::<Seq<char>, Seq<char>>::empty().union_prefer_right(m.restrict(assigned_names(asgs))) =~= m);
}

} // verus!
