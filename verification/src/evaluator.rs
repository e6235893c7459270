//! The evaluator of expressions.
use vstd::prelude::*;
use crate::ast::{
    BinOp, Expr, UnOp, Value, ValueV, copy_names, copy_stmts, env_view, exprs_view,
    lemma_action_env_view, lemma_closure_env_view, names_view,
};
use crate::manager::{Manager, defs_view, find_remote_answer, find_service, remote_contains};
use crate::scope::{
    assoc_get, bind_params, capture_env, capture_env_all, exec_keys, find_last, keys_of, lemma_env_keys,
};
use crate::semantics::{
    ErrV, Outcome, binop_result, eval_args, eval_f, lookup_error, lookup_f,
    prefix_args, unop_result,
};

verus! {

broadcast use {vstd::std_specs::vec::group_vec_axioms, vstd::string::to_string_from_display_ensures_for_str};

/// Errors of evaluation.
#[derive(Debug)]
pub enum EvalError {
    TypeError(String),
    NetworkError(String),
    LookupError(String),
    NotImplemented,
    /// A member of a service that lives elsewhere is needed, and no answer
    /// for it has been received: ask for it, record the answer
    /// (`Manager::record_remote_answer`) and evaluate again.
    RemoteLookup { service: String, member: String },
}

impl View for EvalError {
    type V = ErrV;

    open spec fn view(&self) -> ErrV {
        match self {
            EvalError::TypeError(s) => ErrV::TypeError(s@),
            EvalError::NetworkError(s) => ErrV::NetworkError(s@),
            EvalError::LookupError(s) => ErrV::LookupError(s@),
            EvalError::NotImplemented => ErrV::NotImplemented,
            EvalError::RemoteLookup { service, member } => ErrV::RemoteLookup { service: service@, member: member@ },
        }
    }
}

impl EvalError {
    /// The message of the error, for display.
    pub fn to_string(&self) -> (r: String)
        ensures
            r@ == error_message(self@),
    {
        match self {
            EvalError::TypeError(s) => {
                let mut r = "Type error: ".to_string();
                r.append(s.as_str());
                r
            },
            EvalError::NetworkError(s) => {
                let mut r = "Network error: ".to_string();
                r.append(s.as_str());
                r
            },
            EvalError::LookupError(s) => {
                let mut r = "Lookup error: ".to_string();
                r.append(s.as_str());
                r
            },
            EvalError::NotImplemented => "Not yet implemented".to_string(),
            EvalError::RemoteLookup { service, member } => {
                let mut r = "Remote lookup pending: ".to_string();
                r.append(service.as_str());
                r.append(".");
                r.append(member.as_str());
                r
            },
        }
    }
}

/// How an error reads.
pub open spec fn error_message(e: ErrV) -> Seq<char> {
    match e {
        ErrV::TypeError(s) => "Type error: "@ + s,
        ErrV::NetworkError(s) => "Network error: "@ + s,
        ErrV::LookupError(s) => "Lookup error: "@ + s,
        ErrV::NotImplemented => "Not yet implemented"@,
        ErrV::RemoteLookup { service, member } => "Remote lookup pending: "@ + service + "."@ + member,
    }
}

/// The model of an evaluation result.
pub open spec fn result_view(r: Result<Value, EvalError>) -> Result<ValueV, ErrV> {
    match r {
        Ok(v) => Ok(v@),
        Err(e) => Err(e@),
    }
}

/// The model of an evaluation outcome.
pub open spec fn outcome_view(r: Option<Result<Value, EvalError>>) -> Outcome {
    match r {
        Some(x) => Some(result_view(x)),
        None => None,
    }
}

pub open spec fn values_view(s: Seq<Value>) -> Seq<ValueV> {
    Seq::new(s.len(), |i: int| s[i]@)
}

/// The evaluation context: the manager whose services are looked up, and
/// the service in which the expression stands.
pub struct EvalContext<'a> {
    pub manager: &'a Manager,
    pub service_name: &'a str,
}

/// The fuel of the evaluator's entry points: a bound on the depth of
/// evaluation that no stack can reach.
pub const EVAL_FUEL: u64 = 0xffff_ffff_ffff_ffffu64;

/// The outcome of evaluating `expr` with local bindings `env`, in the
/// context of service `svc` of `m`.
pub open spec fn eval_outcome(expr: Expr, env: Seq<(String, Value)>, m: Manager, svc: Seq<char>) -> Outcome {
    eval_f(EVAL_FUEL as nat, expr@, env_view(env), Seq::empty(), m@, svc)
}

/// The error for a name that is not found.
pub fn lookup_error_value(ident: &String, svc: &String) -> (r: EvalError)
    ensures
        r@ == lookup_error(ident@, svc@),
{
    let mut s = "Variable '".to_string();
    s.append(ident.as_str());
    s.append("' not found in service '");
    s.append(svc.as_str());
    s.append("'");
    EvalError::LookupError(s)
}

/// Applies a binary operator; `None` where the arithmetic has no result.
pub fn apply_binop(op: BinOp, v1: &Value, v2: &Value) -> (r: Option<Result<Value, EvalError>>)
    ensures
        outcome_view(r) == binop_result(op, v1@, v2@),
{
    match (v1, v2) {
        (Value::Number { val: a }, Value::Number { val: b }) => {
            let a = *a;
            let b = *b;
            match op {
                BinOp::Add => match a.checked_add(b) {
                    Some(c) => Some(Ok(Value::Number { val: c })),
                    None => None,
                },
                BinOp::Sub => match a.checked_sub(b) {
                    Some(c) => Some(Ok(Value::Number { val: c })),
                    None => None,
                },
                BinOp::Mul => match a.checked_mul(b) {
                    Some(c) => Some(Ok(Value::Number { val: c })),
                    None => None,
                },
                BinOp::Div => match a.checked_div(b) {
                    Some(c) => Some(Ok(Value::Number { val: c })),
                    None => None,
                },
                BinOp::Eq => Some(Ok(Value::Bool { val: a == b })),
                BinOp::Lt => Some(Ok(Value::Bool { val: a < b })),
                BinOp::Gt => Some(Ok(Value::Bool { val: a > b })),
                _ => Some(Err(EvalError::TypeError("Type error in binary operation".to_string()))),
            }
        },
        (Value::Bool { val: a }, Value::Bool { val: b }) => match op {
            BinOp::And => Some(Ok(Value::Bool { val: *a && *b })),
            BinOp::Or => Some(Ok(Value::Bool { val: *a || *b })),
            _ => Some(Err(EvalError::TypeError("Type error in binary operation".to_string()))),
        },
        _ => Some(Err(EvalError::TypeError("Type error in binary operation".to_string()))),
    }
}

/// Applies a unary operator; `None` where the negation overflows.
pub fn apply_unop(op: UnOp, v: &Value) -> (r: Option<Result<Value, EvalError>>)
    ensures
        outcome_view(r) == unop_result(op, v@),
{
    match (op, v) {
        (UnOp::Neg, Value::Number { val }) => {
            if *val == i64::MIN {
                None
            } else {
                Some(Ok(Value::Number { val: -*val }))
            }
        },
        (UnOp::Not, Value::Bool { val }) => Some(Ok(Value::Bool { val: !*val })),
        _ => Some(Err(EvalError::TypeError("Type error in unary operation".to_string()))),
    }
}

/// The binding of `x` in `env`, copied: the last binding wins.
pub fn env_get(env: &[(String, Value)], x: &String) -> (r: Option<Value>)
    ensures
        match r {
            Some(v) => assoc_get(env_view(env@), x@) == Some(v@),
            None => assoc_get(env_view(env@), x@) is None,
        },
{
    proof {
        lemma_env_keys(env@);
    }
    match find_last(env, x) {
        Some(i) => Some(env[i].1.duplicate()),
        None => None,
    }
}

/// Evaluates `expr` with local bindings `env` and the service bindings
/// `globals` at hand, for service `svc` of `m`, within `fuel` steps of depth.
pub fn eval_fuel(
    expr: &Expr,
    env: &[(String, Value)],
    globals: &[(String, Value)],
    m: &Manager,
    svc: &String,
    fuel: u64,
) -> (r: Option<Result<Value, EvalError>>)
    ensures
        outcome_view(r) == eval_f(fuel as nat, expr@, env_view(env@), env_view(globals@), m@, svc@),
    decreases fuel, 0nat,
{
    if fuel == 0 {
        return None;
    }
    let f = fuel - 1;
    match expr {
        Expr::Literal { val } => Some(Ok(val.duplicate())),
        Expr::Call { func, args } => {
            let fv = match eval_fuel(func, env, globals, m, svc, f) {
                Some(Ok(v)) => v,
                Some(Err(e)) => return Some(Err(e)),
                None => return None,
            };
            assert(expr@->Call_args =~= exprs_view(args@));
            let vals = match eval_list(args, env, globals, m, svc, f) {
                Some(Ok(vs)) => vs,
                Some(Err(e)) => return Some(Err(e)),
                None => return None,
            };
            match fv {
                Value::Closure { params, body, env: cenv } => {
                    proof {
                        lemma_closure_env_view(params, body, cenv);
                    }
                    let new_env = bind_env(cenv, &params, &vals);
                    {
                        let none: Vec<(String, Value)> = Vec::new();
                        assert(env_view(none@) =~= Seq::<(Seq<char>, ValueV)>::empty());
                        eval_fuel(&body, new_env.as_slice(), none.as_slice(), m, svc, f)
                    }
                },
                _ => Some(Err(EvalError::TypeError("Attempting to call a non-function value".to_string()))),
            }
        },
        Expr::Variable { ident } => {
            match env_get(env, ident) {
                Some(v) => Some(Ok(v)),
                None => match env_get(globals, ident) {
                    Some(v) => Some(Ok(v)),
                    None => lookup_fuel(m, ident, svc, f),
                },
            }
        },
        Expr::Binop { op, expr1, expr2 } => {
            let v1 = match eval_fuel(expr1, env, globals, m, svc, f) {
                Some(Ok(v)) => v,
                other => return other,
            };
            let v2 = match eval_fuel(expr2, env, globals, m, svc, f) {
                Some(Ok(v)) => v,
                other => return other,
            };
            apply_binop(*op, &v1, &v2)
        },
        Expr::Unop { op, expr: inner } => {
            let v = match eval_fuel(inner, env, globals, m, svc, f) {
                Some(Ok(v)) => v,
                other => return other,
            };
            apply_unop(*op, &v)
        },
        Expr::If { cond, expr1, expr2 } => {
            let c = match eval_fuel(cond, env, globals, m, svc, f) {
                Some(Ok(v)) => v,
                other => return other,
            };
            match c {
                Value::Bool { val } => {
                    if val {
                        eval_fuel(expr1, env, globals, m, svc, f)
                    } else {
                        eval_fuel(expr2, env, globals, m, svc, f)
                    }
                },
                _ => Some(Err(EvalError::TypeError("Condition must be boolean".to_string()))),
            }
        },
        Expr::Func { params, body } => {
            let captured = capture_env_all(globals, env, expr);
            let p = copy_names(params);
            let b = (**body).duplicate();
            proof {
                lemma_closure_env_view(p, Box::new(b), captured);
            }
            Some(Ok(Value::Closure { params: p, body: Box::new(b), env: captured }))
        },
        Expr::Action(stmts) => {
            let captured = capture_env(env, expr);
            let s = copy_stmts(stmts);
            let n = svc.clone();
            proof {
                lemma_action_env_view(s, captured, n);
                assert(expr@->Action_stmts =~= crate::ast::stmts_view(stmts@));
            }
            Some(Ok(Value::ActionClosure { stmts: s, env: captured, service_name: n }))
        },
        Expr::MemberAccess { service, member } => {
            if remote_contains(&m.remote_services, service) {
                match find_remote_answer(&m.remote_answers, service, member) {
                    Some(v) => Some(Ok(v)),
                    None => Some(Err(EvalError::RemoteLookup { service: service.clone(), member: member.clone() })),
                }
            } else {
                lookup_fuel(m, member, service, f)
            }
        },
    }
}

/// Evaluates the arguments from left to right, stopping at the first error.
pub fn eval_list(
    args: &Vec<Expr>,
    env: &[(String, Value)],
    globals: &[(String, Value)],
    m: &Manager,
    svc: &String,
    fuel: u64,
) -> (r: Option<Result<Vec<Value>, EvalError>>)
    ensures
        eval_args(fuel as nat, exprs_view(args@), env_view(env@), env_view(globals@), m@, svc@) == match r {
            Some(Ok(vs)) => Some(Ok(values_view(vs@))),
            Some(Err(e)) => Some(Err(e@)),
            None => None::<Result<Seq<ValueV>, ErrV>>,
        },
    decreases fuel, 1nat,
{
    let ghost av = exprs_view(args@);
    let ghost envv = env_view(env@);
    let ghost gv = env_view(globals@);
    let mut vals: Vec<Value> = Vec::new();
    let mut i: usize = 0;
    assert(av.skip(0) =~= av);
    assert(values_view(vals@) =~= Seq::<ValueV>::empty());
    while i < args.len()
        invariant
            i <= args@.len(),
            av.len() == args@.len(),
            av == exprs_view(args@),
            envv == env_view(env@),
            gv == env_view(globals@),
            eval_args(fuel as nat, av, envv, gv, m@, svc@) == prefix_args(
                values_view(vals@),
                eval_args(fuel as nat, av.skip(i as int), envv, gv, m@, svc@),
            ),
        decreases args@.len() - i,
    {
        assert(av.skip(i as int).drop_first() =~= av.skip(i + 1));
        assert(av.skip(i as int)[0] == av[i as int]);
        assert(av[i as int] == args@[i as int]@);
        let ghost rest_all = eval_args(fuel as nat, av.skip(i as int), envv, gv, m@, svc@);
        let ghost head = eval_f(fuel as nat, av[i as int], envv, gv, m@, svc@);
        assert(rest_all == match head {
            Some(Ok(v)) => match eval_args(fuel as nat, av.skip(i + 1), envv, gv, m@, svc@) {
                Some(Ok(vs)) => Some(Ok(seq![v] + vs)),
                Some(Err(er)) => Some(Err(er)),
                None => None,
            },
            Some(Err(er)) => Some(Err(er)),
            None => None::<Result<Seq<ValueV>, ErrV>>,
        });
        match eval_fuel(&args[i], env, globals, m, svc, fuel) {
            Some(Ok(v)) => {
                let ghost before = values_view(vals@);
                let ghost vv = v@;
                vals.push(v);
                assert(values_view(vals@) =~= before.push(vv));
                proof {
                    let rest = eval_args(fuel as nat, av.skip(i + 1), envv, gv, m@, svc@);
                    match rest {
                        Some(Ok(vs)) => {
                            assert(before + (seq![vv] + vs) =~= before.push(vv) + vs);
                        },
                        _ => {},
                    }
                }
            },
            Some(Err(e)) => return Some(Err(e)),
            None => return None,
        }
        i = i + 1;
    }
    assert(av.skip(args@.len() as int) =~= Seq::<crate::ast::ExprV>::empty());
    assert(values_view(vals@) + Seq::<ValueV>::empty() =~= values_view(vals@));
    Some(Ok(vals))
}

/// The closure's environment extended with the parameters bound to the arguments.
pub fn bind_env(cenv: Vec<(String, Value)>, params: &Vec<String>, vals: &Vec<Value>) -> (r: Vec<(String, Value)>)
    ensures
        env_view(r@) == bind_params(env_view(cenv@), names_view(params@), values_view(vals@)),
{
    let mut r = cenv;
    let n = if params.len() <= vals.len() { params.len() } else { vals.len() };
    let ghost base = env_view(r@);
    let ghost pv = names_view(params@);
    let ghost vv = values_view(vals@);
    let mut k: usize = 0;
    while k < n
        invariant
            k <= n,
            n <= params@.len(),
            n <= vals@.len(),
            pv == names_view(params@),
            vv == values_view(vals@),
            env_view(r@) == base + Seq::new(k as nat, |i: int| (pv[i], vv[i])),
        decreases n - k,
    {
        let ghost before = env_view(r@);
        let p = params[k].clone();
        let v = vals[k].duplicate();
        r.push((p, v));
        assert(env_view(r@) =~= before.push((pv[k as int], vv[k as int])));
        assert(base + Seq::new((k + 1) as nat, |i: int| (pv[i], vv[i])) =~= (base + Seq::new(k as nat, |i: int| (pv[i], vv[i]))).push((pv[k as int], vv[k as int])));
        k = k + 1;
    }
    r
}

/// Looks `ident` up in service `svc` of `m`, within `fuel` steps of depth.
pub fn lookup_fuel(m: &Manager, ident: &String, svc: &String, fuel: u64) -> (r: Option<Result<Value, EvalError>>)
    ensures
        outcome_view(r) == lookup_f(fuel as nat, m@, ident@, svc@),
    decreases fuel, 0nat,
{
    if fuel == 0 {
        return None;
    }
    let f = fuel - 1;
    match find_service(&m.services, svc) {
        Some(i) => {
            let s = &m.services[i];
            assert(m@.services[i as int] == s@);
            proof {
                lemma_env_keys(s.vars@);
                assert(keys_of(defs_view(s.defs@)) =~= exec_keys(s.defs@));
            }
            match find_last(s.defs.as_slice(), ident) {
                Some(j) => {
                    let none: Vec<(String, Value)> = Vec::new();
                    assert(env_view(none@) =~= Seq::<(Seq<char>, ValueV)>::empty());
                    eval_fuel(&s.defs[j].1, none.as_slice(), s.vars.as_slice(), m, svc, f)
                },
                None => match find_last(s.vars.as_slice(), ident) {
                    Some(j) => Some(Ok(s.vars[j].1.duplicate())),
                    None => Some(Err(lookup_error_value(ident, svc))),
                },
            }
        },
        None => Some(Err(lookup_error_value(ident, svc))),
    }
}

/// Evaluates `expr` with the local bindings `env`, in the context of `ctx`.
///
/// A function value captures the bindings of its free variables. An action
/// value captures only the local bindings it uses, never the variables of a
/// service evaluated with its bindings at hand (while it is created, or
/// while a definition is computed): it reads those through the manager when
/// it runs. A member of a service that lives elsewhere is the answer the
/// manager has received for it, or, with none at hand,
/// `EvalError::RemoteLookup` naming it. The precondition asks that the
/// evaluation finish without overflow or division by zero.
pub fn eval(expr: &Expr, env: &[(String, Value)], ctx: &EvalContext) -> (r: Result<Value, EvalError>)
    requires
        eval_outcome(*expr, env@, *ctx.manager, ctx.service_name@) is Some,
    ensures
        Some(result_view(r)) == eval_outcome(*expr, env@, *ctx.manager, ctx.service_name@),
{
    let svc = ctx.service_name.to_string();
    let none: Vec<(String, Value)> = Vec::new();
    assert(env_view(none@) =~= Seq::<(Seq<char>, ValueV)>::empty());
    match eval_fuel(expr, env, none.as_slice(), ctx.manager, &svc, EVAL_FUEL) {
        Some(r) => r,
        None => Err(EvalError::NotImplemented),
    }
}

} // verus!
