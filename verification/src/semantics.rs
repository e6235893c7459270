//! The meaning of expressions, as a big-step semantics indexed by fuel.
//!
//! An outcome of `None` means that evaluation did not finish within the
//! fuel, or reached a step that has no result: an arithmetic overflow or a
//! division by zero.
//!
//! This library holds no network connection. A member of a service that
//! lives elsewhere is read from the answers the manager has received; where
//! none is at hand, evaluation stops with `ErrV::RemoteLookup`, naming the
//! member to ask for. An action of such a service is put in the manager's
//! outbox, to be sent there.
use vstd::prelude::*;
use crate::ast::{BinOp, DeclV, EnvV, ExprV, StmtV, UnOp, ValueV};
use crate::dependency::analysis;
use crate::manager::{ManagerV, RemoteActionV, ServiceV, is_remote, put_service, remote_answer, service_named};
use crate::scope::{assoc_get, assoc_put, bind_params, capture};

verus! {

/// The model of an evaluation error.
pub enum ErrV {
    TypeError(Seq<char>),
    NetworkError(Seq<char>),
    LookupError(Seq<char>),
    NotImplemented,
    RemoteLookup { service: Seq<char>, member: Seq<char> },
}

/// The outcome of an evaluation.
pub type Outcome = Option<Result<ValueV, ErrV>>;

/// The outcome of evaluating a list of arguments.
pub type ArgsOutcome = Option<Result<Seq<ValueV>, ErrV>>;

/// The error for a name that is neither a variable nor a definition of the service.
pub open spec fn lookup_error(ident: Seq<char>, svc: Seq<char>) -> ErrV {
    ErrV::LookupError("Variable '"@ + ident + "' not found in service '"@ + svc + "'"@)
}

/// The checked result of an arithmetic operation on numbers.
pub open spec fn number_result(r: int) -> Outcome {
    if i64::MIN <= r <= i64::MAX {
        Some(Ok(ValueV::Number { val: r as i64 }))
    } else {
        None
    }
}

/// Integer division rounding toward zero.
pub open spec fn div_toward_zero(a: int, b: int) -> int {
    if a == 0 {
        0
    } else if a > 0 && b > 0 {
        a / b
    } else if a < 0 && b < 0 {
        (-a) / (-b)
    } else if a < 0 {
        -((-a) / b)
    } else {
        -(a / (-b))
    }
}

/// The result of a binary operator on two values.
pub open spec fn binop_result(op: BinOp, v1: ValueV, v2: ValueV) -> Outcome {
    match (v1, v2) {
        (ValueV::Number { val: a }, ValueV::Number { val: b }) => match op {
            BinOp::Add => number_result(a + b),
            BinOp::Sub => number_result(a - b),
            BinOp::Mul => number_result(a * b),
            BinOp::Div => if b == 0 {
                None
            } else {
                number_result(div_toward_zero(a as int, b as int))
            },
            BinOp::Eq => Some(Ok(ValueV::Bool { val: a == b })),
            BinOp::Lt => Some(Ok(ValueV::Bool { val: a < b })),
            BinOp::Gt => Some(Ok(ValueV::Bool { val: a > b })),
            _ => Some(Err(ErrV::TypeError("Type error in binary operation"@))),
        },
        (ValueV::Bool { val: a }, ValueV::Bool { val: b }) => match op {
            BinOp::And => Some(Ok(ValueV::Bool { val: a && b })),
            BinOp::Or => Some(Ok(ValueV::Bool { val: a || b })),
            _ => Some(Err(ErrV::TypeError("Type error in binary operation"@))),
        },
        _ => Some(Err(ErrV::TypeError("Type error in binary operation"@))),
    }
}

/// The result of a unary operator on a value.
pub open spec fn unop_result(op: UnOp, v: ValueV) -> Outcome {
    match (op, v) {
        (UnOp::Neg, ValueV::Number { val }) => number_result(-val),
        (UnOp::Not, ValueV::Bool { val }) => Some(Ok(ValueV::Bool { val: !val })),
        _ => Some(Err(ErrV::TypeError("Type error in unary operation"@))),
    }
}

/// Evaluation of `e` for a program of service `svc` in `m`. The bindings at
/// hand are the service's bindings `globals` (its variables, or, while it
/// is created, its earlier declarations; empty elsewhere) followed by the
/// local bindings `env` (function arguments and what values captured); a
/// variable is the last binding of its name there, else what the manager
/// gives for it in `svc`.
///
/// A function value captures the bindings at hand of the names free in it,
/// service bindings included, and its body is evaluated with those and its
/// parameters only. An action value captures from the local bindings only:
/// it reads the service's variables through the manager when it runs.
pub open spec fn eval_f(fuel: nat, e: ExprV, env: EnvV, globals: EnvV, m: ManagerV, svc: Seq<char>) -> Outcome
    decreases fuel, 0nat,
{
    if fuel == 0 {
        None
    } else {
        let f = (fuel - 1) as nat;
        match e {
            ExprV::Literal { val } => Some(Ok(val)),
            ExprV::Call { func, args } => match eval_f(f, *func, env, globals, m, svc) {
                Some(Ok(fv)) => match eval_args(f, args, env, globals, m, svc) {
                    Some(Ok(avs)) => match fv {
                        ValueV::Closure { params, body, env: cenv } => eval_f(
                            f,
                            *body,
                            bind_params(cenv, params, avs),
                            Seq::empty(),
                            m,
                            svc,
                        ),
                        _ => Some(Err(ErrV::TypeError("Attempting to call a non-function value"@))),
                    },
                    Some(Err(er)) => Some(Err(er)),
                    None => None,
                },
                other => other,
            },
            ExprV::Variable { ident } => match assoc_get(env, ident) {
                Some(v) => Some(Ok(v)),
                None => match assoc_get(globals, ident) {
                    Some(v) => Some(Ok(v)),
                    None => lookup_f(f, m, ident, svc),
                },
            },
            ExprV::Binop { op, expr1, expr2 } => match eval_f(f, *expr1, env, globals, m, svc) {
                Some(Ok(v1)) => match eval_f(f, *expr2, env, globals, m, svc) {
                    Some(Ok(v2)) => binop_result(op, v1, v2),
                    other => other,
                },
                other => other,
            },
            ExprV::Unop { op, expr } => match eval_f(f, *expr, env, globals, m, svc) {
                Some(Ok(v)) => unop_result(op, v),
                other => other,
            },
            ExprV::If { cond, expr1, expr2 } => match eval_f(f, *cond, env, globals, m, svc) {
                Some(Ok(ValueV::Bool { val })) => if val {
                    eval_f(f, *expr1, env, globals, m, svc)
                } else {
                    eval_f(f, *expr2, env, globals, m, svc)
                },
                Some(Ok(_)) => Some(Err(ErrV::TypeError("Condition must be boolean"@))),
                other => other,
            },
            ExprV::Func { params, body } => Some(
                Ok(ValueV::Closure { params, body, env: capture(globals + env, e) }),
            ),
            ExprV::Action { stmts } => Some(
                Ok(ValueV::ActionClosure { stmts, env: capture(env, e), service_name: svc }),
            ),
            ExprV::MemberAccess { service, member } => if is_remote(m, service) {
                match remote_answer(m.remote_answers, service, member) {
                    Some(v) => Some(Ok(v)),
                    None => Some(Err(ErrV::RemoteLookup { service, member })),
                }
            } else {
                lookup_f(f, m, member, service)
            },
        }
    }
}

/// Evaluation of arguments from left to right; the first error stops it.
pub open spec fn eval_args(fuel: nat, args: Seq<ExprV>, env: EnvV, globals: EnvV, m: ManagerV, svc: Seq<char>) -> ArgsOutcome
    decreases fuel, args.len() + 1,
{
    if args.len() == 0 {
        Some(Ok(Seq::empty()))
    } else {
        match eval_f(fuel, args[0], env, globals, m, svc) {
            Some(Ok(v)) => match eval_args(fuel, args.drop_first(), env, globals, m, svc) {
                Some(Ok(vs)) => Some(Ok(seq![v] + vs)),
                Some(Err(er)) => Some(Err(er)),
                None => None,
            },
            Some(Err(er)) => Some(Err(er)),
            None => None,
        }
    }
}

/// The value of `ident` in service `svc`: a definition is evaluated afresh
/// from its expression, with no local bindings and the service's variables
/// at hand; a variable gives its stored value.
pub open spec fn lookup_f(fuel: nat, m: ManagerV, ident: Seq<char>, svc: Seq<char>) -> Outcome
    decreases fuel, 0nat,
{
    if fuel == 0 {
        None
    } else {
        let f = (fuel - 1) as nat;
        match service_named(m, svc) {
            Some(s) => match assoc_get(s.defs, ident) {
                Some(expr) => eval_f(f, expr, Seq::empty(), s.vars, m, svc),
                None => match assoc_get(s.vars, ident) {
                    Some(v) => Some(Ok(v)),
                    None => Some(Err(lookup_error(ident, svc))),
                },
            },
            None => Some(Err(lookup_error(ident, svc))),
        }
    }
}

/// Values already computed, put in front of the outcome of the rest.
pub open spec fn prefix_args(vs: Seq<ValueV>, r: ArgsOutcome) -> ArgsOutcome {
    match r {
        Some(Ok(rest)) => Some(Ok(vs + rest)),
        other => other,
    }
}

// ---------------------------------------------------------------------------
// Changes of state
// ---------------------------------------------------------------------------

/// The outcome of a step that may change the manager: the manager after it
/// and its result, or `None` where it has none (see the module's comment).
pub type StepOutcome = Option<(ManagerV, Result<(), ErrV>)>;

/// The error for a service that does not exist.
pub open spec fn service_error(svc: Seq<char>) -> ErrV {
    ErrV::LookupError("Service '"@ + svc + "' not found"@)
}

/// `m` with variable `x` of service `s` set to `v`.
pub open spec fn with_var(m: ManagerV, s: ServiceV, x: Seq<char>, v: ValueV) -> ManagerV {
    put_service(m, ServiceV { vars: assoc_put(s.vars, x, v), ..s })
}

/// Whether definition `d` of `s` depends on `changed`.
pub open spec fn depends_on(s: ServiceV, d: Seq<char>, changed: Seq<char>) -> bool {
    match assoc_get(s.dep.dep_vars, d) {
        Some(names) => names.contains(changed),
        None => false,
    }
}

/// Recomputes, in `order`, the definitions of service `svc` that depend on
/// `changed`; the first error stops it.
pub open spec fn propagate_f(fuel: nat, m: ManagerV, svc: Seq<char>, changed: Seq<char>, order: Seq<Seq<char>>) -> StepOutcome
    decreases order.len(),
{
    if order.len() == 0 {
        Some((m, Ok(())))
    } else {
        let d = order[0];
        match service_named(m, svc) {
            Some(s) => if depends_on(s, d, changed) && assoc_get(s.defs, d) is Some {
                match eval_f(fuel, assoc_get(s.defs, d)->0, Seq::empty(), s.vars, m, svc) {
                    Some(Ok(v)) => propagate_f(fuel, with_var(m, s, d, v), svc, changed, order.drop_first()),
                    Some(Err(e)) => Some((m, Err(e))),
                    None => None,
                }
            } else {
                propagate_f(fuel, m, svc, changed, order.drop_first())
            },
            None => propagate_f(fuel, m, svc, changed, order.drop_first()),
        }
    }
}

/// Sets variable `var` of service `svc` to `v`, then recomputes the
/// definitions that depend on it.
pub open spec fn assign_f(fuel: nat, m: ManagerV, svc: Seq<char>, var: Seq<char>, v: ValueV) -> StepOutcome {
    match service_named(m, svc) {
        Some(s) => if assoc_get(s.vars, var) is Some {
            propagate_f(fuel, with_var(m, s, var, v), svc, var, s.dep.topo_order)
        } else {
            Some((m, Err(lookup_error(var, svc))))
        },
        None => Some((m, Err(service_error(svc)))),
    }
}

/// The variables and definitions of a service in construction, after the
/// declarations `decls`; each declaration is evaluated with no local
/// bindings and the bindings `env` of the ones before it at hand (they are
/// not captured by the values it makes).
pub open spec fn build_f(
    fuel: nat,
    m: ManagerV,
    svc: Seq<char>,
    decls: Seq<DeclV>,
    env: EnvV,
    vars: EnvV,
    defs: Seq<(Seq<char>, ExprV)>,
) -> Option<Result<(EnvV, Seq<(Seq<char>, ExprV)>), ErrV>>
    decreases decls.len(),
{
    if decls.len() == 0 {
        Some(Ok((vars, defs)))
    } else {
        match decls[0] {
            DeclV::VarDecl { name, val } => match eval_f(fuel, val, Seq::empty(), env, m, svc) {
                Some(Ok(v)) => build_f(fuel, m, svc, decls.drop_first(), env.push((name, v)), assoc_put(vars, name, v), defs),
                Some(Err(e)) => Some(Err(e)),
                None => None,
            },
            DeclV::DefDecl { name, val, .. } => match eval_f(fuel, val, Seq::empty(), env, m, svc) {
                Some(Ok(v)) => build_f(
                    fuel,
                    m,
                    svc,
                    decls.drop_first(),
                    env.push((name, v)),
                    assoc_put(vars, name, v),
                    assoc_put(defs, name, val),
                ),
                Some(Err(e)) => Some(Err(e)),
                None => None,
            },
            DeclV::TableDecl { .. } => Some(Err(ErrV::NotImplemented)),
        }
    }
}

/// The manager after creating service `name` from `decls`: the service
/// replaces one of the same name.
pub open spec fn create_f(fuel: nat, m: ManagerV, name: Seq<char>, decls: Seq<DeclV>) -> Option<Result<ManagerV, ErrV>> {
    match build_f(fuel, m, name, decls, Seq::empty(), Seq::empty(), Seq::empty()) {
        Some(Ok((vars, defs))) => Some(Ok(put_service(m, ServiceV { name, vars, defs, dep: analysis(decls) }))),
        Some(Err(e)) => Some(Err(e)),
        None => None,
    }
}

/// `m` with an action for the remote service `asvc` put in the outbox.
pub open spec fn send_action(m: ManagerV, asvc: Seq<char>, stmts: Seq<StmtV>, cenv: EnvV) -> ManagerV {
    ManagerV { outbox: m.outbox.push(RemoteActionV { service: asvc, stmts, env: cenv }), ..m }
}

/// Runs statement `s` in `env` for service `svc`. With `remote_aware`, an
/// action of a service that lives elsewhere is put in the outbox, to be
/// sent there, instead of being run here.
pub open spec fn exec_stmt_f(fuel: nat, m: ManagerV, s: StmtV, env: EnvV, svc: Seq<char>, remote_aware: bool) -> StepOutcome
    decreases fuel, 0nat,
{
    if fuel == 0 {
        None
    } else {
        let f = (fuel - 1) as nat;
        match s {
            StmtV::Assign { var, expr } => match eval_f(f, expr, env, Seq::empty(), m, svc) {
                Some(Ok(v)) => assign_f(f, m, svc, var, v),
                Some(Err(e)) => Some((m, Err(e))),
                None => None,
            },
            StmtV::Do { expr } => match eval_f(f, expr, env, Seq::empty(), m, svc) {
                Some(Ok(ValueV::ActionClosure { stmts, env: cenv, service_name: asvc })) => if remote_aware
                    && is_remote(m, asvc) {
                    Some((send_action(m, asvc, stmts, cenv), Ok(())))
                } else {
                    exec_stmts_f(f, m, stmts, cenv, asvc, remote_aware)
                },
                Some(Ok(_)) => Some((m, Err(ErrV::TypeError("do expects an action"@)))),
                Some(Err(e)) => Some((m, Err(e))),
                None => None,
            },
            StmtV::Assert { expr } => match eval_f(f, expr, env, Seq::empty(), m, svc) {
                Some(Ok(ValueV::Bool { val })) => if val {
                    Some((m, Ok(())))
                } else {
                    Some((m, Err(ErrV::TypeError("Assertion failed"@))))
                },
                Some(Ok(_)) => Some((m, Err(ErrV::TypeError("assert expects a boolean"@)))),
                Some(Err(e)) => Some((m, Err(e))),
                None => None,
            },
            StmtV::Let { expr, .. } => match eval_f(f, expr, env, Seq::empty(), m, svc) {
                Some(Ok(_)) => Some((m, Ok(()))),
                Some(Err(e)) => Some((m, Err(e))),
                None => None,
            },
            StmtV::Insert { .. } => Some((m, Err(ErrV::NotImplemented))),
        }
    }
}

/// Runs statements in order; the first error stops them.
pub open spec fn exec_stmts_f(fuel: nat, m: ManagerV, stmts: Seq<StmtV>, env: EnvV, svc: Seq<char>, remote_aware: bool) -> StepOutcome
    decreases fuel, stmts.len() + 1,
{
    if stmts.len() == 0 {
        Some((m, Ok(())))
    } else {
        match exec_stmt_f(fuel, m, stmts[0], env, svc, remote_aware) {
            Some((m1, Ok(()))) => exec_stmts_f(fuel, m1, stmts.drop_first(), env, svc, remote_aware),
            other => other,
        }
    }
}

/// Runs the statements of a test, each in an empty environment and with
/// the given fuel; the first error stops them.
pub open spec fn run_test_f(fuel: nat, m: ManagerV, svc: Seq<char>, stmts: Seq<StmtV>) -> StepOutcome
    decreases stmts.len(),
{
    if stmts.len() == 0 {
        Some((m, Ok(())))
    } else {
        match exec_stmt_f(fuel, m, stmts[0], Seq::empty(), svc, false) {
            Some((m1, Ok(()))) => run_test_f(fuel, m1, svc, stmts.drop_first()),
            other => other,
        }
    }
}

} // verus!
