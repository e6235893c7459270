//! Running the statements of actions and tests.
use vstd::prelude::*;
use crate::ast::{ActionStmt, Value, env_view, lemma_action_env_view, stmts_view};
use crate::evaluator::{EVAL_FUEL, EvalError, eval_fuel};
use crate::manager::{Manager, RemoteAction, RemoteActionV, remote_contains};
use crate::semantics::{exec_stmt_f, exec_stmts_f, run_test_f};
use crate::service::{step_view, unit_view};

verus! {

broadcast use {vstd::std_specs::vec::group_vec_axioms, vstd::string::to_string_from_display_ensures_for_str};

/// Runs `stmt` in `env` for service `svc`, within `fuel` steps of depth.
/// With `remote_aware`, an action of a service that lives elsewhere is put
/// in the manager's outbox instead of being run here.
pub fn exec_stmt_fuel(
    m: &mut Manager,
    stmt: &ActionStmt,
    env: &[(String, Value)],
    svc: &String,
    remote_aware: bool,
    fuel: u64,
) -> (r: Option<Result<(), EvalError>>)
    ensures
        step_view(final(m)@, r) == exec_stmt_f(fuel as nat, old(m)@, stmt@, env_view(env@), svc@, remote_aware),
    decreases fuel,
{
    if fuel == 0 {
        return None;
    }
    let f = fuel - 1;
    let none: Vec<(String, Value)> = Vec::new();
    assert(env_view(none@) =~= Seq::<(Seq<char>, crate::ast::ValueV)>::empty());
    match stmt {
        ActionStmt::Assign { var, expr } => {
            let v = match eval_fuel(expr, env, none.as_slice(), m, svc, f) {
                Some(Ok(v)) => v,
                Some(Err(e)) => return Some(Err(e)),
                None => return None,
            };
            m.assign_fuel(svc, var, v, f)
        },
        ActionStmt::Do(expr) => {
            let v = match eval_fuel(expr, env, none.as_slice(), m, svc, f) {
                Some(Ok(v)) => v,
                Some(Err(e)) => return Some(Err(e)),
                None => return None,
            };
            match v {
                Value::ActionClosure { stmts, env: cenv, service_name: asvc } => {
                    proof {
                        lemma_action_env_view(stmts, cenv, asvc);
                    }
                    if remote_aware && remote_contains(&m.remote_services, &asvc) {
                        let ghost m0 = m@;
                        let ghost item = RemoteActionV { service: asvc@, stmts: stmts_view(stmts@), env: env_view(cenv@) };
                        m.outbox.push(RemoteAction { service: asvc, stmts, env: cenv });
                        assert(m@.outbox =~= m0.outbox.push(item));
                        assert(m@.services =~= m0.services);
                        assert(m@.remote_services =~= m0.remote_services);
                        assert(m@.remote_answers =~= m0.remote_answers);
                        return Some(Ok(()));
                    }
                    let ghost sv = stmts_view(stmts@);
                    let ghost cv = env_view(cenv@);
                    let ghost total = exec_stmts_f(f as nat, m@, sv, cv, asvc@, remote_aware);
                    assert(sv.skip(0) =~= sv);
                    let mut i: usize = 0;
                    while i < stmts.len()
                        invariant
                            i <= stmts@.len(),
                            f < fuel,
                            sv == stmts_view(stmts@),
                            cv == env_view(cenv@),
                            total == exec_stmt_f(fuel as nat, old(m)@, stmt@, env_view(env@), svc@, remote_aware),
                            total == exec_stmts_f(f as nat, m@, sv.skip(i as int), cv, asvc@, remote_aware),
                        decreases stmts@.len() - i,
                    {
                        let ghost rest = sv.skip(i as int);
                        assert(rest.drop_first() =~= sv.skip(i + 1));
                        assert(rest[0] == stmts@[i as int]@);
                        let cs = cenv.as_slice();
                        match exec_stmt_fuel(m, &stmts[i], cs, &asvc, remote_aware, f) {
                            Some(Ok(())) => {},
                            other => return other,
                        }
                        i = i + 1;
                    }
                    assert(sv.skip(stmts@.len() as int) =~= Seq::<crate::ast::StmtV>::empty());
                    Some(Ok(()))
                },
                _ => Some(Err(EvalError::TypeError("do expects an action".to_string()))),
            }
        },
        ActionStmt::Assert(expr) => {
            let v = match eval_fuel(expr, env, none.as_slice(), m, svc, f) {
                Some(Ok(v)) => v,
                Some(Err(e)) => return Some(Err(e)),
                None => return None,
            };
            match v {
                Value::Bool { val } => {
                    if val {
                        Some(Ok(()))
                    } else {
                        Some(Err(EvalError::TypeError("Assertion failed".to_string())))
                    }
                },
                _ => Some(Err(EvalError::TypeError("assert expects a boolean".to_string()))),
            }
        },
        ActionStmt::Let { expr, .. } => {
            match eval_fuel(expr, env, none.as_slice(), m, svc, f) {
                Some(Ok(_)) => Some(Ok(())),
                Some(Err(e)) => Some(Err(e)),
                None => None,
            }
        },
        ActionStmt::Insert { .. } => Some(Err(EvalError::NotImplemented)),
    }
}

/// Runs statement `stmt` in `env` for service `service_name`; an action
/// of a service that lives elsewhere is put in the manager's outbox, to be
/// sent there.
pub fn execute(stmt: &ActionStmt, env: &[(String, Value)], manager: &mut Manager, service_name: &str) -> (r: Result<(), EvalError>)
    requires
        exec_stmt_f(EVAL_FUEL as nat, old(manager)@, stmt@, env_view(env@), service_name@, true) is Some,
    ensures
        Some((final(manager)@, unit_view(r))) == exec_stmt_f(EVAL_FUEL as nat, old(manager)@, stmt@, env_view(env@), service_name@, true),
{
    let svc = service_name.to_string();
    match exec_stmt_fuel(manager, stmt, env, &svc, true, EVAL_FUEL) {
        Some(r) => r,
        None => Err(EvalError::NotImplemented),
    }
}

impl Manager {
    /// Runs statement `stmt` in `env` for service `service_name`; an action
    /// runs in the service it was made in.
    pub fn execute_action_stmt(&mut self, stmt: &ActionStmt, env: &[(String, Value)], service_name: &str) -> (r: Result<(), EvalError>)
        requires
            exec_stmt_f(EVAL_FUEL as nat, old(self)@, stmt@, env_view(env@), service_name@, false) is Some,
        ensures
            Some((final(self)@, unit_view(r))) == exec_stmt_f(EVAL_FUEL as nat, old(self)@, stmt@, env_view(env@), service_name@, false),
    {
        let svc = service_name.to_string();
        match exec_stmt_fuel(self, stmt, env, &svc, false, EVAL_FUEL) {
            Some(r) => r,
            None => Err(EvalError::NotImplemented),
        }
    }

    /// Runs the statements of a test of service `service_name`, each in an
    /// empty environment; the first error stops them.
    pub fn run_test(&mut self, service_name: &str, stmts: &[ActionStmt]) -> (r: Result<(), EvalError>)
        requires
            run_test_f(EVAL_FUEL as nat, old(self)@, service_name@, stmts_view(stmts@)) is Some,
        ensures
            Some((final(self)@, unit_view(r))) == run_test_f(EVAL_FUEL as nat, old(self)@, service_name@, stmts_view(stmts@)),
    {
        let svc = service_name.to_string();
        let ghost sv = stmts_view(stmts@);
        let ghost total = run_test_f(EVAL_FUEL as nat, self@, svc@, sv);
        let empty: Vec<(String, Value)> = Vec::new();
        assert(env_view(empty@) =~= Seq::<(Seq<char>, crate::ast::ValueV)>::empty());
        assert(sv.skip(0) =~= sv);
        let mut i: usize = 0;
        while i < stmts.len()
            invariant
                i <= stmts@.len(),
                sv == stmts_view(stmts@),
                env_view(empty@) == Seq::<(Seq<char>, crate::ast::ValueV)>::empty(),
                svc@ == service_name@,
                total == run_test_f(EVAL_FUEL as nat, old(self)@, service_name@, sv),
                total is Some,
                total == run_test_f(EVAL_FUEL as nat, self@, svc@, sv.skip(i as int)),
            decreases stmts@.len() - i,
        {
            let ghost rest = sv.skip(i as int);
            assert(rest.drop_first() =~= sv.skip(i + 1));
            assert(rest[0] == stmts@[i as int]@);
            match exec_stmt_fuel(self, &stmts[i], empty.as_slice(), &svc, false, EVAL_FUEL) {
                Some(Ok(())) => {},
                Some(Err(e)) => return Err(e),
                None => return Err(EvalError::NotImplemented),
            }
            i = i + 1;
        }
        assert(sv.skip(stmts@.len() as int) =~= Seq::<crate::ast::StmtV>::empty());
        Ok(())
    }
}

} // verus!
