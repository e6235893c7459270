//! Names and scopes: free variables of expressions, association lists
//! keyed by names, environment lookup and capture.
use vstd::prelude::*;
use crate::ast::{ActionStmt, EnvV, Expr, ExprV, StmtV, Value, ValueV, env_view, exprs_view, names_view, stmts_view};

verus! {

broadcast use vstd::std_specs::vec::group_vec_axioms;

// ---------------------------------------------------------------------------
// Free variables
// ---------------------------------------------------------------------------

/// `x` occurs free in `e`: it is used as a variable and not bound by an
/// enclosing function's parameters.
pub open spec fn is_free(e: ExprV, x: Seq<char>) -> bool
    decreases e,
{
    match e {
        ExprV::Literal { .. } => false,
        ExprV::Variable { ident } => ident == x,
        ExprV::Binop { expr1, expr2, .. } => is_free(*expr1, x) || is_free(*expr2, x),
        ExprV::Unop { expr, .. } => is_free(*expr, x),
        ExprV::If { cond, expr1, expr2 } => is_free(*cond, x) || is_free(*expr1, x) || is_free(*expr2, x),
        ExprV::Func { params, body } => !params.contains(x) && is_free(*body, x),
        ExprV::Call { func, args } => is_free(*func, x) || any_is_free(args, x),
        ExprV::Action { stmts } => any_stmt_is_free(stmts, x),
        ExprV::MemberAccess { .. } => false,
    }
}

/// `x` occurs free in one of `es`.
pub open spec fn any_is_free(es: Seq<ExprV>, x: Seq<char>) -> bool
    decreases es,
{
    if es.len() == 0 {
        false
    } else {
        is_free(es[0], x) || any_is_free(es.drop_first(), x)
    }
}

/// `x` occurs free in one of `ss`.
pub open spec fn any_stmt_is_free(ss: Seq<StmtV>, x: Seq<char>) -> bool
    decreases ss,
{
    if ss.len() == 0 {
        false
    } else {
        stmt_is_free(ss[0], x) || any_stmt_is_free(ss.drop_first(), x)
    }
}

/// `x` occurs free in the expression of statement `s`.
pub open spec fn stmt_is_free(s: StmtV, x: Seq<char>) -> bool
    decreases s,
{
    match s {
        StmtV::Assign { expr, .. } => is_free(expr, x),
        StmtV::Do { expr } => is_free(expr, x),
        StmtV::Assert { expr } => is_free(expr, x),
        StmtV::Let { expr, .. } => is_free(expr, x),
        StmtV::Insert { row, .. } => is_free(row, x),
    }
}

/// Whether `x` is one of `names`.
pub fn names_contain(names: &Vec<String>, x: &String) -> (r: bool)
    ensures
        r == names_view(names@).contains(x@),
{
    let mut i: usize = 0;
    while i < names.len()
        invariant
            i <= names.len(),
            forall|j: int| 0 <= j < i ==> names@[j]@ != x@,
        decreases names.len() - i,
    {
        if names[i] == *x {
            assert(names_view(names@)[i as int] == x@);
            return true;
        }
        i = i + 1;
    }
    assert(!names_view(names@).contains(x@)) by {
        if names_view(names@).contains(x@) {
            let j = choose|j: int| 0 <= j < names_view(names@).len() && names_view(names@)[j] == x@;
            assert(names@[j]@ == x@);
        }
    }
    false
}

/// Whether `x` occurs free in `e`.
#[verifier::loop_isolation(false)]
pub fn occurs_free(e: &Expr, x: &String) -> (r: bool)
    ensures
        r == is_free(e@, x@),
    decreases e,
{
    match e {
        Expr::Literal { .. } => false,
        Expr::Variable { ident } => *ident == *x,
        Expr::Binop { expr1, expr2, .. } => occurs_free(expr1, x) || occurs_free(expr2, x),
        Expr::Unop { expr, .. } => occurs_free(expr, x),
        Expr::If { cond, expr1, expr2 } => occurs_free(cond, x) || occurs_free(expr1, x) || occurs_free(expr2, x),
        Expr::Func { params, body } => !names_contain(params, x) && occurs_free(body, x),
        Expr::Call { func, args } => {
            if occurs_free(func, x) {
                return true;
            }
            let ghost av = e@->Call_args;
            assert(av =~= exprs_view(args@));
            assert(av.skip(0) =~= av);
            let mut i: usize = 0;
            while i < args.len()
                invariant
                    i <= args.len(),
                    av.len() == args.len(),
                    is_free(e@, x@) == any_is_free(av.skip(i as int), x@),
                decreases args.len() - i,
            {
                assert(av.skip(i as int).drop_first() =~= av.skip(i + 1));
                proof {
                    assert(decreases_to!(*args => args@));
                    assert(decreases_to!(args@ => args@[i as int]));
                }
                if occurs_free(&args[i], x) {
                    return true;
                }
                i = i + 1;
            }
            false
        },
        Expr::Action(stmts) => {
            let ghost sv = e@->Action_stmts;
            assert(sv =~= stmts_view(stmts@));
            assert(sv.skip(0) =~= sv);
            let mut i: usize = 0;
            while i < stmts.len()
                invariant
                    i <= stmts.len(),
                    sv.len() == stmts.len(),
                    is_free(e@, x@) == any_stmt_is_free(sv.skip(i as int), x@),
                decreases stmts.len() - i,
            {
                assert(sv.skip(i as int).drop_first() =~= sv.skip(i + 1));
                proof {
                    assert(decreases_to!(*stmts => stmts@));
                    assert(decreases_to!(stmts@ => stmts@[i as int]));
                }
                if stmt_occurs_free(&stmts[i], x) {
                    return true;
                }
                i = i + 1;
            }
            false
        },
        Expr::MemberAccess { .. } => false,
    }
}

/// Whether `x` occurs free in the expression of `s`.
pub fn stmt_occurs_free(s: &ActionStmt, x: &String) -> (r: bool)
    ensures
        r == stmt_is_free(s@, x@),
    decreases s,
{
    match s {
        ActionStmt::Assign { expr, .. } => occurs_free(expr, x),
        ActionStmt::Do(expr) => occurs_free(expr, x),
        ActionStmt::Assert(expr) => occurs_free(expr, x),
        ActionStmt::Let { expr, .. } => occurs_free(expr, x),
        ActionStmt::Insert { row, .. } => occurs_free(row, x),
    }
}

/// `x` occurs free in one of `es` exactly when some element of `es` has it
/// free.
pub proof fn lemma_any_is_free(es: Seq<ExprV>, x: Seq<char>)
    ensures
        any_is_free(es, x) <==> exists|i: int| 0 <= i < es.len() && #[trigger] is_free(es[i], x),
    decreases es.len(),
{
    if es.len() > 0 {
        let rest = es.drop_first();
        lemma_any_is_free(rest, x);
        assert(any_is_free(es, x) == (is_free(es[0], x) || any_is_free(rest, x)));
        if any_is_free(rest, x) {
            let i = choose|i: int| 0 <= i < rest.len() && #[trigger] is_free(rest[i], x);
            assert(es[i + 1] == rest[i]);
        }
        if exists|i: int| 0 <= i < es.len() && #[trigger] is_free(es[i], x) {
            let i = choose|i: int| 0 <= i < es.len() && #[trigger] is_free(es[i], x);
            if i > 0 {
                assert(rest[i - 1] == es[i]);
            }
        }
    }
}

/// `x` occurs free in one of `ss` exactly when some statement of `ss` has
/// it free.
pub proof fn lemma_any_stmt_is_free(ss: Seq<StmtV>, x: Seq<char>)
    ensures
        any_stmt_is_free(ss, x) <==> exists|i: int| 0 <= i < ss.len() && #[trigger] stmt_is_free(ss[i], x),
    decreases ss.len(),
{
    if ss.len() > 0 {
        let rest = ss.drop_first();
        lemma_any_stmt_is_free(rest, x);
        assert(any_stmt_is_free(ss, x) == (stmt_is_free(ss[0], x) || any_stmt_is_free(rest, x)));
        if any_stmt_is_free(rest, x) {
            let i = choose|i: int| 0 <= i < rest.len() && #[trigger] stmt_is_free(rest[i], x);
            assert(ss[i + 1] == rest[i]);
        }
        if exists|i: int| 0 <= i < ss.len() && #[trigger] stmt_is_free(ss[i], x) {
            let i = choose|i: int| 0 <= i < ss.len() && #[trigger] stmt_is_free(ss[i], x);
            if i > 0 {
                assert(rest[i - 1] == ss[i]);
            }
        }
    }
}

/// The free variables of a call are those of the function together with
/// those of every argument, and those of an action are those of all its
/// statements: a variable read by any argument of a call, or by any
/// statement of an action, occurs free in it.
pub proof fn law_free_variables_of_calls_and_actions(func: ExprV, args: Seq<ExprV>, stmts: Seq<StmtV>, x: Seq<char>)
    ensures
        is_free(ExprV::Call { func: Box::new(func), args }, x) <==> (is_free(func, x) || exists|i: int|
            0 <= i < args.len() && #[trigger] is_free(args[i], x)),
        forall|i: int| 0 <= i < args.len() && #[trigger] is_free(args[i], x) ==> is_free(ExprV::Call { func: Box::new(func), args }, x),
        is_free(ExprV::Action { stmts }, x) <==> exists|i: int| 0 <= i < stmts.len() && #[trigger] stmt_is_free(stmts[i], x),
        forall|i: int| 0 <= i < stmts.len() && #[trigger] stmt_is_free(stmts[i], x) ==> is_free(ExprV::Action { stmts }, x),
{
    lemma_any_is_free(args, x);
    lemma_any_stmt_is_free(stmts, x);
}

// ---------------------------------------------------------------------------
// Association lists keyed by names
// ---------------------------------------------------------------------------

/// The keys of an association list.
pub open spec fn keys_of<V>(s: Seq<(Seq<char>, V)>) -> Seq<Seq<char>> {
    Seq::new(s.len(), |i: int| s[i].0)
}

/// The index of the last occurrence of `x` in `names`, or -1.
pub open spec fn last_index(names: Seq<Seq<char>>, x: Seq<char>) -> int
    decreases names.len(),
{
    if names.len() == 0 {
        -1
    } else if names.last() == x {
        names.len() - 1
    } else {
        last_index(names.drop_last(), x)
    }
}

/// The value bound to `x` in `s`: the last binding wins.
pub open spec fn assoc_get<V>(s: Seq<(Seq<char>, V)>, x: Seq<char>) -> Option<V> {
    let i = last_index(keys_of(s), x);
    if i >= 0 {
        Some(s[i].1)
    } else {
        None
    }
}

/// `s` with `x` bound to `v`: the last binding of `x` is replaced, or the
/// binding is appended where `x` is not bound.
pub open spec fn assoc_put<V>(s: Seq<(Seq<char>, V)>, x: Seq<char>, v: V) -> Seq<(Seq<char>, V)> {
    let i = last_index(keys_of(s), x);
    if i >= 0 {
        s.update(i, (x, v))
    } else {
        s.push((x, v))
    }
}

pub proof fn lemma_last_index(names: Seq<Seq<char>>, x: Seq<char>)
    ensures
        -1 <= last_index(names, x) < names.len(),
        last_index(names, x) >= 0 ==> names[last_index(names, x)] == x,
        forall|j: int| last_index(names, x) < j < names.len() ==> names[j] != x,
    decreases names.len(),
{
    if names.len() > 0 && names.last() != x {
        lemma_last_index(names.drop_last(), x);
        assert forall|j: int| last_index(names, x) < j < names.len() implies names[j] != x by {
            if j < names.len() - 1 {
                assert(names.drop_last()[j] == names[j]);
            }
        }
    }
}

pub proof fn lemma_last_index_unique(names: Seq<Seq<char>>, x: Seq<char>, i: int)
    requires
        0 <= i < names.len(),
        names[i] == x,
        forall|j: int| i < j < names.len() ==> names[j] != x,
    ensures
        last_index(names, x) == i,
    decreases names.len(),
{
    if names.len() - 1 != i {
        lemma_last_index_unique(names.drop_last(), x, i);
    }
}

pub proof fn lemma_last_index_none(names: Seq<Seq<char>>, x: Seq<char>)
    requires
        forall|j: int| 0 <= j < names.len() ==> names[j] != x,
    ensures
        last_index(names, x) == -1,
    decreases names.len(),
{
    if names.len() > 0 {
        lemma_last_index_none(names.drop_last(), x);
    }
}

/// The keys of a list of exec pairs, as names.
pub open spec fn exec_keys<T>(s: Seq<(String, T)>) -> Seq<Seq<char>> {
    Seq::new(s.len(), |i: int| s[i].0@)
}

/// The position of the last binding of `x` in `s`.
pub fn find_last<T>(s: &[(String, T)], x: &String) -> (r: Option<usize>)
    ensures
        match r {
            Some(i) => i < s@.len() && i as int == last_index(exec_keys(s@), x@),
            None => last_index(exec_keys(s@), x@) == -1,
        },
{
    proof {
        lemma_last_index(exec_keys(s@), x@);
    }
    let mut i: usize = s.len();
    while i > 0
        invariant
            i <= s@.len(),
            forall|j: int| i <= j < s@.len() ==> s@[j].0@ != x@,
        decreases i,
    {
        if s[i - 1].0 == *x {
            proof {
                lemma_last_index_unique(exec_keys(s@), x@, i - 1);
            }
            return Some(i - 1);
        }
        i = i - 1;
    }
    proof {
        lemma_last_index_none(exec_keys(s@), x@);
    }
    None
}

pub proof fn lemma_env_keys(env: Seq<(String, Value)>)
    ensures
        keys_of(env_view(env)) == exec_keys(env),
{
    assert(keys_of(env_view(env)) =~= exec_keys(env));
}

// ---------------------------------------------------------------------------
// Environments
// ---------------------------------------------------------------------------

/// The bindings of `env` whose names occur free in `e`, in order.
pub open spec fn capture(env: EnvV, e: ExprV) -> EnvV
    decreases env.len(),
{
    if env.len() == 0 {
        env
    } else if is_free(e, env.last().0) {
        capture(env.drop_last(), e).push(env.last())
    } else {
        capture(env.drop_last(), e)
    }
}

/// The bindings of `env` that `e` uses as free variables, copied.
pub fn capture_env(env: &[(String, Value)], e: &Expr) -> (r: Vec<(String, Value)>)
    ensures
        env_view(r@) == capture(env_view(env@), e@),
{
    let mut r: Vec<(String, Value)> = Vec::new();
    let mut i: usize = 0;
    while i < env.len()
        invariant
            i <= env@.len(),
            env_view(r@) == capture(env_view(env@).take(i as int), e@),
        decreases env@.len() - i,
    {
        let ghost before = r@;
        proof {
            assert(env_view(env@).take(i + 1).drop_last() =~= env_view(env@).take(i as int));
        }
        if occurs_free(e, &env[i].0) {
            let n = env[i].0.clone();
            let v = env[i].1.duplicate();
            r.push((n, v));
            assert(env_view(r@) =~= env_view(before).push(env_view(env@)[i as int]));
        }
        i = i + 1;
    }
    assert(env_view(env@).take(env@.len() as int) =~= env_view(env@));
    r
}

/// `env` extended with the parameters bound to the arguments, pairwise, as
/// far as both lists go.
pub open spec fn bind_params(env: EnvV, params: Seq<Seq<char>>, args: Seq<ValueV>) -> EnvV {
    let n = if params.len() <= args.len() { params.len() } else { args.len() };
    env + Seq::new(n, |i: int| (params[i], args[i]))
}

/// Capturing from two lists of bindings in a row captures from each in turn.
pub proof fn lemma_capture_concat(a: EnvV, b: EnvV, e: ExprV)
    ensures
        capture(a + b, e) == capture(a, e) + capture(b, e),
    decreases b.len(),
{
    if b.len() == 0 {
        assert(a + b =~= a);
        assert(capture(a, e) + capture(b, e) =~= capture(a, e));
    } else {
        assert((a + b).drop_last() =~= a + b.drop_last());
        assert((a + b).last() == b.last());
        lemma_capture_concat(a, b.drop_last(), e);
        if is_free(e, b.last().0) {
            assert(capture(a, e) + capture(b.drop_last(), e).push(b.last()) =~= (capture(a, e) + capture(b.drop_last(), e)).push(b.last()));
        }
    }
}

/// The bindings of `globals` followed by `env` that `e` uses as free variables, copied.
pub fn capture_env_all(globals: &[(String, Value)], env: &[(String, Value)], e: &Expr) -> (r: Vec<(String, Value)>)
    ensures
        env_view(r@) == capture(env_view(globals@) + env_view(env@), e@),
{
    let mut r = capture_env(globals, e);
    let mut r2 = capture_env(env, e);
    let ghost a = r@;
    let ghost b = r2@;
    r.append(&mut r2);
    assert(env_view(r@) =~= env_view(a) + env_view(b));
    proof {
        lemma_capture_concat(env_view(globals@), env_view(env@), e@);
    }
    r
}

} // verus!
