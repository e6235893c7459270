//! Properties of the language that span its operations.
use vstd::prelude::*;
use crate::ast::{DeclV, EnvV, ExprV, StmtV, ValueV};
use crate::dependency::analysis;
use crate::manager::{ManagerV, ServiceV, service_named};
use crate::scope::{assoc_get, assoc_put, capture, is_free, keys_of, last_index, lemma_last_index, lemma_last_index_unique};
use crate::semantics::{
    build_f, create_f, exec_stmt_f, exec_stmts_f, eval_args, ErrV, assign_f, eval_f, lookup_error, lookup_f, propagate_f, service_error, with_var,
};
use crate::service::lemma_put_service_named;

verus! {

/// Binding a name and reading it back gives the value bound.
pub proof fn lemma_assoc_put_same<V>(s: Seq<(Seq<char>, V)>, x: Seq<char>, v: V)
    ensures
        assoc_get(assoc_put(s, x, v), x) == Some(v),
{
    let ks = keys_of(s);
    lemma_last_index(ks, x);
    let i = last_index(ks, x);
    let s2 = assoc_put(s, x, v);
    if i >= 0 {
        assert(keys_of(s2) =~= ks);
        lemma_last_index_unique(keys_of(s2), x, i);
    } else {
        assert(keys_of(s2) =~= ks.push(x));
        lemma_last_index_unique(keys_of(s2), x, ks.len() as int);
    }
}

/// Binding a name leaves the bindings of the other names as they were.
pub proof fn lemma_assoc_put_other<V>(s: Seq<(Seq<char>, V)>, x: Seq<char>, v: V, y: Seq<char>)
    requires
        x != y,
    ensures
        assoc_get(assoc_put(s, x, v), y) == assoc_get(s, y),
{
    let ks = keys_of(s);
    lemma_last_index(ks, x);
    lemma_last_index(ks, y);
    let i = last_index(ks, x);
    let s2 = assoc_put(s, x, v);
    if i >= 0 {
        assert(keys_of(s2) =~= ks);
        let j = last_index(ks, y);
        if j >= 0 {
            assert(j != i);
        }
    } else {
        assert(keys_of(s2) =~= ks.push(x));
        assert(keys_of(s2).drop_last() =~= ks);
    }
}

/// Putting a service leaves the services of other names as they were.
pub proof fn lemma_put_service_other(m: ManagerV, s: ServiceV, other: Seq<char>)
    requires
        other != s.name,
    ensures
        service_named(crate::manager::put_service(m, s), other) == service_named(m, other),
{
    let names = crate::manager::service_names(m.services);
    lemma_last_index(names, s.name);
    lemma_last_index(names, other);
    let i = last_index(names, s.name);
    let m2 = crate::manager::put_service(m, s);
    let names2 = crate::manager::service_names(m2.services);
    if i >= 0 {
        assert(names2 =~= names);
    } else {
        assert(names2.drop_last() =~= names);
    }
}

/// Recomputing definitions changes, in service `svc`, only the cached
/// values of the definitions that depend on `changed`: the definitions,
/// the dependency analysis, the other bindings and the other services stay
/// as they were.
pub proof fn lemma_propagate_frame(
    fuel: nat,
    m: ManagerV,
    svc: Seq<char>,
    changed: Seq<char>,
    order: Seq<Seq<char>>,
    y: Seq<char>,
)
    requires
        service_named(m, svc) is Some,
        !(crate::semantics::depends_on(service_named(m, svc)->0, y, changed) && assoc_get(
            service_named(m, svc)->0.defs,
            y,
        ) is Some),
    ensures
        propagate_f(fuel, m, svc, changed, order) matches Some((m2, _)) ==> {
            &&& service_named(m2, svc) is Some
            &&& service_named(m2, svc)->0.defs == service_named(m, svc)->0.defs
            &&& service_named(m2, svc)->0.dep == service_named(m, svc)->0.dep
            &&& assoc_get(service_named(m2, svc)->0.vars, y) == assoc_get(service_named(m, svc)->0.vars, y)
            &&& forall|o: Seq<char>| o != svc ==> #[trigger] service_named(m2, o) == service_named(m, o)
        },
    decreases order.len(),
{
    if order.len() > 0 {
        let d = order[0];
        let s = service_named(m, svc)->0;
        if crate::semantics::depends_on(s, d, changed) && assoc_get(s.defs, d) is Some {
            match eval_f(fuel, assoc_get(s.defs, d)->0, Seq::empty(), s.vars, m, svc) {
                Some(Ok(v)) => {
                    let s2 = ServiceV { vars: assoc_put(s.vars, d, v), ..s };
                    let m1 = with_var(m, s, d, v);
                    lemma_put_service_named(m, s2);
                    assert(s.name == svc) by {
                        lemma_service_named_name(m, svc);
                    }
                    lemma_assoc_put_other(s.vars, d, v, y);
                    lemma_propagate_frame(fuel, m1, svc, changed, order.drop_first(), y);
                    assert forall|o: Seq<char>| o != svc implies #[trigger] service_named(m1, o) == service_named(m, o) by {
                        lemma_put_service_other(m, s2, o);
                    }
                },
                _ => {},
            }
        } else {
            lemma_propagate_frame(fuel, m, svc, changed, order.drop_first(), y);
        }
    }
}

/// The service found under a name has that name.
pub proof fn lemma_service_named_name(m: ManagerV, svc: Seq<char>)
    ensures
        service_named(m, svc) matches Some(s) ==> s.name == svc,
{
    let names = crate::manager::service_names(m.services);
    lemma_last_index(names, svc);
}

/// Read after write: once variable `x` of service `svc` has been assigned
/// `v` without error, and `x` is not a definition, looking `x` up gives `v`.
pub proof fn law_read_after_write(fuel: nat, lookup_fuel: nat, m: ManagerV, svc: Seq<char>, x: Seq<char>, v: ValueV)
    requires
        service_named(m, svc) is Some,
        assoc_get(service_named(m, svc)->0.defs, x) is None,
        assign_f(fuel, m, svc, x, v) matches Some((_, Ok(()))),
        lookup_fuel > 0,
    ensures
        assign_f(fuel, m, svc, x, v) matches Some((m2, _)) && lookup_f(lookup_fuel, m2, x, svc) == Some(
            Ok::<ValueV, ErrV>(v),
        ),
{
    let s = service_named(m, svc)->0;
    lemma_service_named_name(m, svc);
    let s1 = ServiceV { vars: assoc_put(s.vars, x, v), ..s };
    let m1 = with_var(m, s, x, v);
    lemma_put_service_named(m, s1);
    lemma_assoc_put_same(s.vars, x, v);
    lemma_propagate_frame(fuel, m1, svc, x, s.dep.topo_order, x);
}

/// Assigning a name that is not a variable of the service, or in a service
/// that does not exist, changes nothing and reports a lookup error.
pub proof fn law_assign_unknown(fuel: nat, m: ManagerV, svc: Seq<char>, x: Seq<char>, v: ValueV)
    requires
        !(service_named(m, svc) matches Some(s) && assoc_get(s.vars, x) is Some),
    ensures
        assign_f(fuel, m, svc, x, v) == Some((
            m,
            Err::<(), ErrV>(if service_named(m, svc) is Some { lookup_error(x, svc) } else { service_error(svc) }),
        )),
{
}

/// A definition is recomputed at each lookup: its value is that of its
/// expression, evaluated with the service's current variables.
pub proof fn law_definitions_are_fresh(fuel: nat, m: ManagerV, svc: Seq<char>, d: Seq<char>)
    requires
        service_named(m, svc) matches Some(s) && assoc_get(s.defs, d) is Some,
    ensures
        lookup_f(fuel + 1, m, d, svc) == eval_f(
            fuel,
            assoc_get(service_named(m, svc)->0.defs, d)->0,
            Seq::empty(),
            service_named(m, svc)->0.vars,
            m,
            svc,
        ),
{
}

/// A name that is neither a variable nor a definition of the service, or a
/// service that does not exist, is reported as not found.
pub proof fn law_lookup_missing(fuel: nat, m: ManagerV, svc: Seq<char>, x: Seq<char>)
    requires
        !(service_named(m, svc) matches Some(s) && (assoc_get(s.defs, x) is Some || assoc_get(s.vars, x) is Some)),
    ensures
        lookup_f(fuel + 1, m, x, svc) == Some(Err::<ValueV, ErrV>(lookup_error(x, svc))),
{
}

/// Every binding captured from `env` has a name that occurs free in `e`.
pub proof fn lemma_capture_only_free(env: EnvV, e: ExprV)
    ensures
        forall|i: int| 0 <= i < capture(env, e).len() ==> is_free(e, #[trigger] capture(env, e)[i].0),
        capture(env, e).len() <= env.len(),
    decreases env.len(),
{
    if env.len() > 0 {
        lemma_capture_only_free(env.drop_last(), e);
    }
}

/// Every binding of `env` whose name occurs free in `e` is captured.
pub proof fn lemma_capture_all_free(env: EnvV, e: ExprV, j: int)
    requires
        0 <= j < env.len(),
        is_free(e, env[j].0),
    ensures
        capture(env, e).contains(env[j]),
    decreases env.len(),
{
    if j < env.len() - 1 {
        lemma_capture_all_free(env.drop_last(), e, j);
        let c = capture(env.drop_last(), e);
        let k = choose|k: int| 0 <= k < c.len() && c[k] == env.drop_last()[j];
        if is_free(e, env.last().0) {
            assert(capture(env, e)[k] == env[j]);
        }
    } else {
        let c = capture(env.drop_last(), e);
        assert(capture(env, e)[c.len() as int] == env[j]);
    }
}

/// A function value holds exactly the bindings at hand of its free
/// variables, the service's bindings included: each captured binding has a
/// free name, and each binding at hand with a free name is captured, in
/// order.
pub proof fn law_closure_captures_free_variables(fuel: nat, e: ExprV, env: EnvV, g: EnvV, m: ManagerV, svc: Seq<char>)
    requires
        e is Func,
        fuel > 0,
    ensures
        eval_f(fuel, e, env, g, m, svc) matches Some(Ok(ValueV::Closure { env: cenv, .. })) && cenv == capture(g + env, e)
            && (forall|i: int| 0 <= i < cenv.len() ==> is_free(e, #[trigger] cenv[i].0))
            && (forall|j: int| 0 <= j < (g + env).len() && is_free(e, #[trigger] (g + env)[j].0) ==> cenv.contains((g + env)[j])),
{
    let all = g + env;
    lemma_capture_only_free(all, e);
    assert forall|j: int| 0 <= j < all.len() && is_free(e, #[trigger] all[j].0) implies capture(all, e).contains(all[j]) by {
        lemma_capture_all_free(all, e, j);
    }
}

/// More fuel changes nothing: an evaluation that finishes within some fuel
/// has the same outcome with any larger fuel.
pub proof fn law_eval_fuel_monotone(f1: nat, f2: nat, e: ExprV, env: EnvV, g: EnvV, m: ManagerV, svc: Seq<char>)
    requires
        f1 <= f2,
        eval_f(f1, e, env, g, m, svc) is Some,
    ensures
        eval_f(f2, e, env, g, m, svc) == eval_f(f1, e, env, g, m, svc),
    decreases f1, 0nat,
{
    let f = (f1 - 1) as nat;
    let g2 = (f2 - 1) as nat;
    match e {
        ExprV::Literal { .. } => {},
        ExprV::Call { func, args } => {
            law_eval_fuel_monotone(f, g2, *func, env, g, m, svc);
            if let Some(Ok(fv)) = eval_f(f, *func, env, g, m, svc) {
                law_args_fuel_monotone(f, g2, args, env, g, m, svc);
                if let Some(Ok(avs)) = eval_args(f, args, env, g, m, svc) {
                    if let ValueV::Closure { params, body, env: cenv } = fv {
                        law_eval_fuel_monotone(f, g2, *body, crate::scope::bind_params(cenv, params, avs), Seq::empty(), m, svc);
                    }
                }
            }
        },
        ExprV::Variable { ident } => {
            if assoc_get(env, ident) is None && assoc_get(g, ident) is None {
                law_lookup_fuel_monotone(f, g2, m, ident, svc);
            }
        },
        ExprV::Binop { op, expr1, expr2 } => {
            law_eval_fuel_monotone(f, g2, *expr1, env, g, m, svc);
            if let Some(Ok(_)) = eval_f(f, *expr1, env, g, m, svc) {
                law_eval_fuel_monotone(f, g2, *expr2, env, g, m, svc);
            }
        },
        ExprV::Unop { op, expr } => {
            law_eval_fuel_monotone(f, g2, *expr, env, g, m, svc);
        },
        ExprV::If { cond, expr1, expr2 } => {
            law_eval_fuel_monotone(f, g2, *cond, env, g, m, svc);
            if let Some(Ok(ValueV::Bool { val })) = eval_f(f, *cond, env, g, m, svc) {
                if val {
                    law_eval_fuel_monotone(f, g2, *expr1, env, g, m, svc);
                } else {
                    law_eval_fuel_monotone(f, g2, *expr2, env, g, m, svc);
                }
            }
        },
        ExprV::Func { .. } => {},
        ExprV::Action { .. } => {},
        ExprV::MemberAccess { service, member } => {
            if !crate::manager::is_remote(m, service) {
                law_lookup_fuel_monotone(f, g2, m, member, service);
            }
        },
    }
}

/// More fuel changes nothing for a list of arguments.
pub proof fn law_args_fuel_monotone(f1: nat, f2: nat, args: Seq<ExprV>, env: EnvV, g: EnvV, m: ManagerV, svc: Seq<char>)
    requires
        f1 <= f2,
        eval_args(f1, args, env, g, m, svc) is Some,
    ensures
        eval_args(f2, args, env, g, m, svc) == eval_args(f1, args, env, g, m, svc),
    decreases f1, args.len() + 1,
{
    if args.len() > 0 {
        law_eval_fuel_monotone(f1, f2, args[0], env, g, m, svc);
        if let Some(Ok(_)) = eval_f(f1, args[0], env, g, m, svc) {
            law_args_fuel_monotone(f1, f2, args.drop_first(), env, g, m, svc);
        }
    }
}

/// More fuel changes nothing for a lookup.
pub proof fn law_lookup_fuel_monotone(f1: nat, f2: nat, m: ManagerV, ident: Seq<char>, svc: Seq<char>)
    requires
        f1 <= f2,
        lookup_f(f1, m, ident, svc) is Some,
    ensures
        lookup_f(f2, m, ident, svc) == lookup_f(f1, m, ident, svc),
    decreases f1, 0nat,
{
    let f = (f1 - 1) as nat;
    let g2 = (f2 - 1) as nat;
    if let Some(s) = service_named(m, svc) {
        if let Some(expr) = assoc_get(s.defs, ident) {
            law_eval_fuel_monotone(f, g2, expr, Seq::empty(), s.vars, m, svc);
        }
    }
}

/// A created service is found under its name, with the variables and
/// definitions its declarations gave and their dependency analysis.
pub proof fn law_created_service_is_found(fuel: nat, m: ManagerV, name: Seq<char>, decls: Seq<DeclV>)
    requires
        create_f(fuel, m, name, decls) matches Some(Ok(_)),
    ensures
        create_f(fuel, m, name, decls) matches Some(Ok(m2)) && build_f(
            fuel,
            m,
            name,
            decls,
            Seq::empty(),
            Seq::empty(),
            Seq::empty(),
        ) matches Some(Ok((vars, defs))) && service_named(m2, name) == Some(
            ServiceV { name, vars, defs, dep: analysis(decls) },
        ),
{
    if let Some(Ok((vars, defs))) = build_f(fuel, m, name, decls, Seq::empty(), Seq::empty(), Seq::empty()) {
        lemma_put_service_named(m, ServiceV { name, vars, defs, dep: analysis(decls) });
    }
}

/// Recomputing definitions keeps the remote services.
pub proof fn lemma_propagate_keeps_remote(fuel: nat, m: ManagerV, svc: Seq<char>, changed: Seq<char>, order: Seq<Seq<char>>)
    ensures
        propagate_f(fuel, m, svc, changed, order) matches Some((m2, _)) ==> m2.remote_services == m.remote_services,
    decreases order.len(),
{
    if order.len() > 0 {
        let d = order[0];
        if let Some(s) = service_named(m, svc) {
            if crate::semantics::depends_on(s, d, changed) && assoc_get(s.defs, d) is Some {
                if let Some(Ok(v)) = eval_f(fuel, assoc_get(s.defs, d)->0, Seq::empty(), s.vars, m, svc) {
                    lemma_propagate_keeps_remote(fuel, with_var(m, s, d, v), svc, changed, order.drop_first());
                }
            } else {
                lemma_propagate_keeps_remote(fuel, m, svc, changed, order.drop_first());
            }
        } else {
            lemma_propagate_keeps_remote(fuel, m, svc, changed, order.drop_first());
        }
    }
}

/// Running a statement keeps the remote services.
pub proof fn lemma_exec_keeps_remote(fuel: nat, m: ManagerV, s: StmtV, env: EnvV, svc: Seq<char>, ra: bool)
    ensures
        exec_stmt_f(fuel, m, s, env, svc, ra) matches Some((m2, _)) ==> m2.remote_services == m.remote_services,
    decreases fuel, 0nat,
{
    if fuel > 0 {
        let f = (fuel - 1) as nat;
        match s {
            StmtV::Assign { var, expr } => {
                if let Some(Ok(v)) = eval_f(f, expr, env, Seq::empty(), m, svc) {
                    if let Some(sv) = service_named(m, svc) {
                        if assoc_get(sv.vars, var) is Some {
                            lemma_propagate_keeps_remote(f, with_var(m, sv, var, v), svc, var, sv.dep.topo_order);
                        }
                    }
                }
            },
            StmtV::Do { expr } => {
                if let Some(Ok(ValueV::ActionClosure { stmts, env: cenv, service_name: asvc })) = eval_f(f, expr, env, Seq::empty(), m, svc) {
                    if !(ra && crate::manager::is_remote(m, asvc)) {
                        lemma_execs_keep_remote(f, m, stmts, cenv, asvc, ra);
                    }
                }
            },
            _ => {},
        }
    }
}

/// Running statements keeps the remote services.
pub proof fn lemma_execs_keep_remote(fuel: nat, m: ManagerV, stmts: Seq<StmtV>, env: EnvV, svc: Seq<char>, ra: bool)
    ensures
        exec_stmts_f(fuel, m, stmts, env, svc, ra) matches Some((m2, _)) ==> m2.remote_services == m.remote_services,
    decreases fuel, stmts.len() + 1,
{
    if stmts.len() > 0 {
        lemma_exec_keeps_remote(fuel, m, stmts[0], env, svc, ra);
        if let Some((m1, Ok(()))) = exec_stmt_f(fuel, m, stmts[0], env, svc, ra) {
            lemma_execs_keep_remote(fuel, m1, stmts.drop_first(), env, svc, ra);
        }
    }
}

/// With no service living elsewhere, running a statement gives the same
/// outcome whether or not actions of such services are looked for:
/// `execute` and `Manager::execute_action_stmt` agree.
pub proof fn law_execute_agrees(fuel: nat, m: ManagerV, s: StmtV, env: EnvV, svc: Seq<char>)
    requires
        m.remote_services.len() == 0,
    ensures
        exec_stmt_f(fuel, m, s, env, svc, false) == exec_stmt_f(fuel, m, s, env, svc, true),
    decreases fuel, 0nat,
{
    if fuel > 0 {
        let f = (fuel - 1) as nat;
        if let StmtV::Do { expr } = s {
            if let Some(Ok(ValueV::ActionClosure { stmts, env: cenv, service_name: asvc })) = eval_f(f, expr, env, Seq::empty(), m, svc) {
                law_execute_list_agrees(f, m, stmts, cenv, asvc);
            }
        }
    }
}

/// The same, for a list of statements.
pub proof fn law_execute_list_agrees(fuel: nat, m: ManagerV, stmts: Seq<StmtV>, env: EnvV, svc: Seq<char>)
    requires
        m.remote_services.len() == 0,
    ensures
        exec_stmts_f(fuel, m, stmts, env, svc, false) == exec_stmts_f(fuel, m, stmts, env, svc, true),
    decreases fuel, stmts.len() + 1,
{
    if stmts.len() > 0 {
        law_execute_agrees(fuel, m, stmts[0], env, svc);
        lemma_exec_keeps_remote(fuel, m, stmts[0], env, svc, true);
        if let Some((m1, Ok(()))) = exec_stmt_f(fuel, m, stmts[0], env, svc, true) {
            law_execute_list_agrees(fuel, m1, stmts.drop_first(), env, svc);
        }
    }
}

/// Definitions react to assignments: once variable `x` (not a definition)
/// of service `svc` has been assigned `v` without error, looking up a
/// definition evaluates its unchanged expression with variables in which
/// `x` is bound to `v`.
pub proof fn law_definitions_see_assignments(fuel: nat, lookup_fuel: nat, m: ManagerV, svc: Seq<char>, x: Seq<char>, v: ValueV, d: Seq<char>)
    requires
        service_named(m, svc) is Some,
        assoc_get(service_named(m, svc)->0.defs, x) is None,
        assoc_get(service_named(m, svc)->0.defs, d) is Some,
        assign_f(fuel, m, svc, x, v) matches Some((_, Ok(()))),
    ensures
        assign_f(fuel, m, svc, x, v) matches Some((m2, _)) && service_named(m2, svc) matches Some(s2) && assoc_get(s2.vars, x)
            == Some(v) && lookup_f(lookup_fuel + 1, m2, d, svc) == eval_f(
            lookup_fuel,
            assoc_get(service_named(m, svc)->0.defs, d)->0,
            Seq::empty(),
            s2.vars,
            m2,
            svc,
        ),
{
    let s = service_named(m, svc)->0;
    lemma_service_named_name(m, svc);
    let s1 = ServiceV { vars: assoc_put(s.vars, x, v), ..s };
    let m1 = with_var(m, s, x, v);
    lemma_put_service_named(m, s1);
    lemma_assoc_put_same(s.vars, x, v);
    lemma_propagate_frame(fuel, m1, svc, x, s.dep.topo_order, x);
}

/// An action value holds exactly the bindings of its free variables, and
/// the service in which it was made.
pub proof fn law_action_captures_free_variables(fuel: nat, e: ExprV, env: EnvV, g: EnvV, m: ManagerV, svc: Seq<char>)
    requires
        e is Action,
        fuel > 0,
    ensures
        eval_f(fuel, e, env, g, m, svc) matches Some(Ok(ValueV::ActionClosure { env: cenv, service_name, .. }))
            && service_name == svc && cenv == capture(env, e)
            && (forall|i: int| 0 <= i < cenv.len() ==> is_free(e, #[trigger] cenv[i].0))
            && (forall|j: int| 0 <= j < env.len() && is_free(e, #[trigger] env[j].0) ==> cenv.contains(env[j])),
{
    lemma_capture_only_free(env, e);
    assert forall|j: int| 0 <= j < env.len() && is_free(e, #[trigger] env[j].0) implies capture(env, e).contains(env[j]) by {
        lemma_capture_all_free(env, e, j);
    }
}

/// Doing an action runs its statements in the service where it was made,
/// with the bindings it captured, whatever the caller's service and
/// bindings.
pub proof fn law_action_runs_in_its_own_service(
    fuel: nat,
    m: ManagerV,
    stmts: Seq<StmtV>,
    cenv: EnvV,
    asvc: Seq<char>,
    env: EnvV,
    svc: Seq<char>,
)
    requires
        fuel > 0,
    ensures
        exec_stmt_f(
            fuel + 1,
            m,
            StmtV::Do { expr: ExprV::Literal { val: ValueV::ActionClosure { stmts, env: cenv, service_name: asvc } } },
            env,
            svc,
            false,
        ) == exec_stmts_f(fuel, m, stmts, cenv, asvc, false),
{
}

/// An assignment of `x` in service `svc` changes nothing but `x` and the
/// cached values of the definitions that depend on `x`: every other binding
/// of the service keeps its value, and every other service is unchanged,
/// whether or not the recomputation succeeds.
pub proof fn law_assignment_frame(fuel: nat, m: ManagerV, svc: Seq<char>, x: Seq<char>, v: ValueV, y: Seq<char>)
    requires
        service_named(m, svc) is Some,
        y != x,
        !(crate::semantics::depends_on(service_named(m, svc)->0, y, x) && assoc_get(
            service_named(m, svc)->0.defs,
            y,
        ) is Some),
    ensures
        assign_f(fuel, m, svc, x, v) matches Some((m2, _)) ==> {
            &&& service_named(m2, svc) is Some
            &&& assoc_get(service_named(m2, svc)->0.vars, y) == assoc_get(service_named(m, svc)->0.vars, y)
            &&& forall|o: Seq<char>| o != svc ==> #[trigger] service_named(m2, o) == service_named(m, o)
        },
{
    let s = service_named(m, svc)->0;
    if assoc_get(s.vars, x) is Some {
        lemma_service_named_name(m, svc);
        let s1 = ServiceV { vars: assoc_put(s.vars, x, v), ..s };
        let m1 = with_var(m, s, x, v);
        lemma_put_service_named(m, s1);
        lemma_assoc_put_other(s.vars, x, v, y);
        lemma_propagate_frame(fuel, m1, svc, x, s.dep.topo_order, y);
        assert forall|o: Seq<char>| o != svc implies #[trigger] service_named(m1, o) == service_named(m, o) by {
            lemma_put_service_other(m, s1, o);
        }
    }
}

/// Rebinding a bound name keeps the list of names.
pub proof fn lemma_assoc_put_keys<V>(s: Seq<(Seq<char>, V)>, x: Seq<char>, v: V)
    requires
        assoc_get(s, x) is Some,
    ensures
        keys_of(assoc_put(s, x, v)) == keys_of(s),
{
    lemma_last_index(keys_of(s), x);
    assert(keys_of(assoc_put(s, x, v)) =~= keys_of(s));
}

/// Putting a service in place of one of the same name keeps the names of
/// the services and the remote services.
pub proof fn lemma_put_service_names(m: ManagerV, s: ServiceV)
    requires
        service_named(m, s.name) is Some,
    ensures
        crate::manager::service_names(crate::manager::put_service(m, s).services) == crate::manager::service_names(m.services),
        crate::manager::put_service(m, s).remote_services == m.remote_services,
{
    let names = crate::manager::service_names(m.services);
    lemma_last_index(names, s.name);
    assert(crate::manager::service_names(crate::manager::put_service(m, s).services) =~= names);
}

/// Every definition of `s` also has a (cached) variable binding, as
/// creating a service establishes.
pub open spec fn defs_are_cached(s: ServiceV) -> bool {
    forall|d: Seq<char>| #[trigger] assoc_get(s.defs, d) is Some ==> assoc_get(s.vars, d) is Some
}

/// Recomputing definitions keeps the shape of the manager: the names of
/// the services, the remote services, and, in service `svc`, its name,
/// definitions, dependency analysis and the names it binds.
pub proof fn lemma_propagate_shape(fuel: nat, m: ManagerV, svc: Seq<char>, changed: Seq<char>, order: Seq<Seq<char>>)
    requires
        service_named(m, svc) matches Some(s) && defs_are_cached(s),
    ensures
        propagate_f(fuel, m, svc, changed, order) matches Some((m2, _)) ==> {
            &&& crate::manager::service_names(m2.services) == crate::manager::service_names(m.services)
            &&& m2.remote_services == m.remote_services
            &&& service_named(m2, svc) is Some
            &&& service_named(m2, svc)->0.name == service_named(m, svc)->0.name
            &&& service_named(m2, svc)->0.defs == service_named(m, svc)->0.defs
            &&& service_named(m2, svc)->0.dep == service_named(m, svc)->0.dep
            &&& keys_of(service_named(m2, svc)->0.vars) == keys_of(service_named(m, svc)->0.vars)
        },
    decreases order.len(),
{
    if order.len() > 0 {
        let d = order[0];
        let s = service_named(m, svc)->0;
        if crate::semantics::depends_on(s, d, changed) && assoc_get(s.defs, d) is Some {
            match eval_f(fuel, assoc_get(s.defs, d)->0, Seq::empty(), s.vars, m, svc) {
                Some(Ok(v)) => {
                    let s2 = ServiceV { vars: assoc_put(s.vars, d, v), ..s };
                    let m1 = with_var(m, s, d, v);
                    assert(s.name == svc) by {
                        lemma_service_named_name(m, svc);
                    }
                    lemma_put_service_named(m, s2);
                    lemma_put_service_names(m, s2);
                    lemma_assoc_put_keys(s.vars, d, v);
                    assert(defs_are_cached(s2));
                    lemma_propagate_shape(fuel, m1, svc, changed, order.drop_first());
                },
                _ => {},
            }
        } else {
            lemma_propagate_shape(fuel, m, svc, changed, order.drop_first());
        }
    }
}

/// An assignment keeps the shape of the manager, whatever its result: the
/// same services, remote services, and, in the service assigned, the same
/// name, definitions, dependency analysis and bound names.
pub proof fn law_assignment_keeps_shape(fuel: nat, m: ManagerV, svc: Seq<char>, x: Seq<char>, v: ValueV)
    requires
        service_named(m, svc) matches Some(s) && defs_are_cached(s),
    ensures
        assign_f(fuel, m, svc, x, v) matches Some((m2, _)) ==> {
            &&& crate::manager::service_names(m2.services) == crate::manager::service_names(m.services)
            &&& m2.remote_services == m.remote_services
            &&& service_named(m2, svc) is Some
            &&& service_named(m2, svc)->0.name == service_named(m, svc)->0.name
            &&& service_named(m2, svc)->0.defs == service_named(m, svc)->0.defs
            &&& service_named(m2, svc)->0.dep == service_named(m, svc)->0.dep
            &&& keys_of(service_named(m2, svc)->0.vars) == keys_of(service_named(m, svc)->0.vars)
        },
{
    let s = service_named(m, svc)->0;
    if assoc_get(s.vars, x) is Some {
        lemma_service_named_name(m, svc);
        let s1 = ServiceV { vars: assoc_put(s.vars, x, v), ..s };
        let m1 = with_var(m, s, x, v);
        lemma_put_service_named(m, s1);
        lemma_put_service_names(m, s1);
        lemma_assoc_put_keys(s.vars, x, v);
        assert(defs_are_cached(s1));
        lemma_propagate_shape(fuel, m1, svc, x, s.dep.topo_order);
    }
}

/// An action value made with no local bindings captures nothing: actions
/// made while a service is created, or while a definition is computed,
/// hold none of the service's variables and read them through the manager
/// when they run.
pub proof fn law_actions_capture_no_service_bindings(fuel: nat, e: ExprV, g: EnvV, m: ManagerV, svc: Seq<char>)
    requires
        e is Action,
        fuel > 0,
    ensures
        eval_f(fuel, e, Seq::empty(), g, m, svc) matches Some(Ok(ValueV::ActionClosure { env, .. })) && env.len() == 0,
{
}

/// A variable is the last local binding of its name, else the last binding
/// at hand of the service, else what the manager gives for it in the
/// current service.
pub proof fn law_variable_resolution(fuel: nat, x: Seq<char>, env: EnvV, g: EnvV, m: ManagerV, svc: Seq<char>)
    ensures
        eval_f(fuel + 1, ExprV::Variable { ident: x }, env, g, m, svc) == match assoc_get(env, x) {
            Some(v) => Some(Ok::<ValueV, ErrV>(v)),
            None => match assoc_get(g, x) {
                Some(v) => Some(Ok(v)),
                None => lookup_f(fuel, m, x, svc),
            },
        },
{
}

/// A member of a local service is looked up in that service; a member of a
/// service that lives elsewhere is the answer received for it, or, with
/// none at hand, a request to look it up there.
pub proof fn law_member_access(fuel: nat, service: Seq<char>, member: Seq<char>, env: EnvV, g: EnvV, m: ManagerV, svc: Seq<char>)
    ensures
        eval_f(fuel + 1, ExprV::MemberAccess { service, member }, env, g, m, svc) == if crate::manager::is_remote(m, service) {
            match crate::manager::remote_answer(m.remote_answers, service, member) {
                Some(v) => Some(Ok::<ValueV, ErrV>(v)),
                None => Some(Err(ErrV::RemoteLookup { service, member })),
            }
        } else {
            lookup_f(fuel, m, member, service)
        },
{
}

/// A conditional evaluates its condition, then exactly one branch; a
/// condition that is not a boolean is a type error.
pub proof fn law_conditional(fuel: nat, c: ExprV, a: ExprV, b: ExprV, env: EnvV, g: EnvV, m: ManagerV, svc: Seq<char>)
    ensures
        eval_f(fuel + 1, ExprV::If { cond: Box::new(c), expr1: Box::new(a), expr2: Box::new(b) }, env, g, m, svc) == match eval_f(fuel, c, env, g, m, svc) {
            Some(Ok(ValueV::Bool { val: true })) => eval_f(fuel, a, env, g, m, svc),
            Some(Ok(ValueV::Bool { val: false })) => eval_f(fuel, b, env, g, m, svc),
            Some(Ok(_)) => Some(Err(ErrV::TypeError("Condition must be boolean"@))),
            other => other,
        },
{
}

/// A call evaluates the function, then the arguments from left to right
/// (the first error wins), then the body with the captured bindings
/// followed by the parameters bound to the arguments, and no service
/// bindings beyond those it captured.
pub proof fn law_call(fuel: nat, func: ExprV, args: Seq<ExprV>, env: EnvV, g: EnvV, m: ManagerV, svc: Seq<char>)
    ensures
        eval_f(fuel + 1, ExprV::Call { func: Box::new(func), args }, env, g, m, svc) == match eval_f(fuel, func, env, g, m, svc) {
            Some(Ok(fv)) => match eval_args(fuel, args, env, g, m, svc) {
                Some(Ok(avs)) => match fv {
                    ValueV::Closure { params, body, env: cenv } => eval_f(
                        fuel,
                        *body,
                        crate::scope::bind_params(cenv, params, avs),
                        Seq::empty(),
                        m,
                        svc,
                    ),
                    _ => Some(Err(ErrV::TypeError("Attempting to call a non-function value"@))),
                },
                Some(Err(er)) => Some(Err(er)),
                None => None,
            },
            other => other,
        },
{
}

/// A variable that is not a definition gives its stored value.
pub proof fn law_lookup_variable(fuel: nat, m: ManagerV, svc: Seq<char>, x: Seq<char>)
    requires
        service_named(m, svc) matches Some(s) && assoc_get(s.defs, x) is None && assoc_get(s.vars, x) is Some,
    ensures
        lookup_f(fuel + 1, m, x, svc) == Some(Ok::<ValueV, ErrV>(assoc_get(service_named(m, svc)->0.vars, x)->0)),
{
}

/// An assignment statement evaluates its expression, then assigns the
/// value from the same state; an evaluation error changes nothing.
pub proof fn law_assignment_statement(
    fuel: nat,
    m: ManagerV,
    var: Seq<char>,
    expr: ExprV,
    env: EnvV,
    svc: Seq<char>,
    remote_aware: bool,
)
    ensures
        exec_stmt_f(fuel + 1, m, StmtV::Assign { var, expr }, env, svc, remote_aware) == match eval_f(
            fuel,
            expr,
            env,
            Seq::empty(),
            m,
            svc,
        ) {
            Some(Ok(v)) => assign_f(fuel, m, svc, var, v),
            Some(Err(e)) => Some((m, Err::<(), ErrV>(e))),
            None => None,
        },
{
}

/// Binding a name keeps the names of a list distinct.
pub proof fn law_assoc_put_keeps_keys_distinct<V>(s: Seq<(Seq<char>, V)>, x: Seq<char>, v: V)
    requires
        keys_of(s).no_duplicates(),
    ensures
        keys_of(assoc_put(s, x, v)).no_duplicates(),
{
    let ks = keys_of(s);
    lemma_last_index(ks, x);
    let i = last_index(ks, x);
    if i >= 0 {
        assert(keys_of(assoc_put(s, x, v)) =~= ks);
    } else {
        assert(keys_of(assoc_put(s, x, v)) =~= ks.push(x));
    }
}

/// Putting a service keeps the names of the services distinct.
pub proof fn law_put_service_keeps_names_distinct(m: ManagerV, s: ServiceV)
    requires
        crate::manager::service_names(m.services).no_duplicates(),
    ensures
        crate::manager::service_names(crate::manager::put_service(m, s).services).no_duplicates(),
{
    let names = crate::manager::service_names(m.services);
    lemma_last_index(names, s.name);
    let i = last_index(names, s.name);
    if i >= 0 {
        assert(crate::manager::service_names(crate::manager::put_service(m, s).services) =~= names);
    } else {
        assert(crate::manager::service_names(crate::manager::put_service(m, s).services) =~= names.push(s.name));
    }
}

/// Building a service keeps every definition bound as a variable.
pub proof fn lemma_build_caches_definitions(
    fuel: nat,
    m: ManagerV,
    svc: Seq<char>,
    decls: Seq<DeclV>,
    env: EnvV,
    vars: EnvV,
    defs: Seq<(Seq<char>, ExprV)>,
)
    requires
        forall|d: Seq<char>| #[trigger] assoc_get(defs, d) is Some ==> assoc_get(vars, d) is Some,
    ensures
        build_f(fuel, m, svc, decls, env, vars, defs) matches Some(Ok((vars2, defs2))) ==> forall|d: Seq<char>|
            #[trigger] assoc_get(defs2, d) is Some ==> assoc_get(vars2, d) is Some,
    decreases decls.len(),
{
    if decls.len() > 0 {
        match decls[0] {
            DeclV::VarDecl { name, val } => {
                if let Some(Ok(v)) = eval_f(fuel, val, Seq::empty(), env, m, svc) {
                    let vars1 = assoc_put(vars, name, v);
                    assert forall|d: Seq<char>| #[trigger] assoc_get(defs, d) is Some implies assoc_get(vars1, d) is Some by {
                        if d == name {
                            lemma_assoc_put_same(vars, name, v);
                        } else {
                            lemma_assoc_put_other(vars, name, v, d);
                        }
                    }
                    lemma_build_caches_definitions(fuel, m, svc, decls.drop_first(), env.push((name, v)), vars1, defs);
                }
            },
            DeclV::DefDecl { name, val, .. } => {
                if let Some(Ok(v)) = eval_f(fuel, val, Seq::empty(), env, m, svc) {
                    let vars1 = assoc_put(vars, name, v);
                    let defs1 = assoc_put(defs, name, val);
                    assert forall|d: Seq<char>| #[trigger] assoc_get(defs1, d) is Some implies assoc_get(vars1, d) is Some by {
                        if d == name {
                            lemma_assoc_put_same(vars, name, v);
                        } else {
                            lemma_assoc_put_other(vars, name, v, d);
                            lemma_assoc_put_other(defs, name, val, d);
                        }
                    }
                    lemma_build_caches_definitions(fuel, m, svc, decls.drop_first(), env.push((name, v)), vars1, defs1);
                }
            },
            DeclV::TableDecl { .. } => {},
        }
    }
}

/// A created service binds each of its definitions as a variable (its
/// cached value), which assignments then keep (`law_assignment_keeps_shape`).
pub proof fn law_created_service_caches_definitions(fuel: nat, m: ManagerV, name: Seq<char>, decls: Seq<DeclV>)
    requires
        create_f(fuel, m, name, decls) matches Some(Ok(_)),
    ensures
        create_f(fuel, m, name, decls) matches Some(Ok(m2)) && service_named(m2, name) matches Some(s) && defs_are_cached(s),
{
    lemma_build_caches_definitions(fuel, m, name, decls, Seq::empty(), Seq::empty(), Seq::empty());
    law_created_service_is_found(fuel, m, name, decls);
}

/// `e` makes no action value outside the bodies of its function values.
pub open spec fn makes_no_action(e: ExprV) -> bool
    decreases e,
{
    match e {
        ExprV::Action { .. } => false,
        ExprV::Binop { expr1, expr2, .. } => makes_no_action(*expr1) && makes_no_action(*expr2),
        ExprV::Unop { expr, .. } => makes_no_action(*expr),
        ExprV::If { cond, expr1, expr2 } => makes_no_action(*cond) && makes_no_action(*expr1) && makes_no_action(*expr2),
        ExprV::Call { func, args } => makes_no_action(*func) && all_make_no_action(args),
        _ => true,
    }
}

/// None of `es` makes an action value outside function bodies.
pub open spec fn all_make_no_action(es: Seq<ExprV>) -> bool
    decreases es,
{
    if es.len() == 0 {
        true
    } else {
        makes_no_action(es[0]) && all_make_no_action(es.drop_first())
    }
}

/// The service's bindings at hand give the same outcome as the same
/// bindings passed as local ones, for every expression that makes no
/// action value: a definition looked up or recomputed with the service's
/// variables at hand has the value of evaluating it with those variables as
/// its local bindings (`eval`), function values included.
pub proof fn law_service_bindings_as_local(fuel: nat, e: ExprV, g: EnvV, m: ManagerV, svc: Seq<char>)
    requires
        makes_no_action(e),
    ensures
        eval_f(fuel, e, Seq::empty(), g, m, svc) == eval_f(fuel, e, g, Seq::empty(), m, svc),
    decreases fuel, 0nat,
{
    if fuel > 0 {
        let f = (fuel - 1) as nat;
        match e {
            ExprV::Call { func, args } => {
                law_service_bindings_as_local(f, *func, g, m, svc);
                law_service_args_as_local(f, args, g, m, svc);
            },
            ExprV::Binop { expr1, expr2, .. } => {
                law_service_bindings_as_local(f, *expr1, g, m, svc);
                law_service_bindings_as_local(f, *expr2, g, m, svc);
            },
            ExprV::Unop { expr, .. } => {
                law_service_bindings_as_local(f, *expr, g, m, svc);
            },
            ExprV::If { cond, expr1, expr2 } => {
                law_service_bindings_as_local(f, *cond, g, m, svc);
                law_service_bindings_as_local(f, *expr1, g, m, svc);
                law_service_bindings_as_local(f, *expr2, g, m, svc);
            },
            ExprV::Func { .. } => {
                assert(g + Seq::<(Seq<char>, ValueV)>::empty() =~= g);
                assert(Seq::<(Seq<char>, ValueV)>::empty() + g =~= g);
            },
            _ => {},
        }
    }
}

/// The same, for a list of arguments.
pub proof fn law_service_args_as_local(fuel: nat, args: Seq<ExprV>, g: EnvV, m: ManagerV, svc: Seq<char>)
    requires
        all_make_no_action(args),
    ensures
        eval_args(fuel, args, Seq::empty(), g, m, svc) == eval_args(fuel, args, g, Seq::empty(), m, svc),
    decreases fuel, args.len() + 1,
{
    if args.len() > 0 {
        law_service_bindings_as_local(fuel, args[0], g, m, svc);
        law_service_args_as_local(fuel, args.drop_first(), g, m, svc);
    }
}

/// Once an answer for `member` of the remote `service` is recorded, the
/// member evaluates to it.
pub proof fn law_recorded_answer_is_used(fuel: nat, service: Seq<char>, member: Seq<char>, v: ValueV, env: EnvV, g: EnvV, m: ManagerV, svc: Seq<char>)
    requires
        crate::manager::is_remote(m, service),
    ensures
        eval_f(
            fuel + 1,
            ExprV::MemberAccess { service, member },
            env,
            g,
            crate::manager::ManagerV { remote_answers: m.remote_answers.push((service, member, v)), ..m },
            svc,
        ) == Some(Ok::<ValueV, ErrV>(v)),
{
    let m2 = crate::manager::ManagerV { remote_answers: m.remote_answers.push((service, member, v)), ..m };
    assert(crate::manager::is_remote(m2, service));
}

/// Doing an action of a service that lives elsewhere (with `execute`) puts
/// it, with its statements and captured bindings, in the outbox, and
/// changes nothing else.
pub proof fn law_remote_action_goes_to_outbox(
    fuel: nat,
    m: ManagerV,
    stmts: Seq<StmtV>,
    cenv: EnvV,
    asvc: Seq<char>,
    env: EnvV,
    svc: Seq<char>,
)
    requires
        fuel > 0,
        crate::manager::is_remote(m, asvc),
    ensures
        exec_stmt_f(
            fuel + 1,
            m,
            StmtV::Do { expr: ExprV::Literal { val: ValueV::ActionClosure { stmts, env: cenv, service_name: asvc } } },
            env,
            svc,
            true,
        ) == Some((
            crate::manager::ManagerV {
                outbox: m.outbox.push(crate::manager::RemoteActionV { service: asvc, stmts, env: cenv }),
                ..m
            },
            Ok::<(), ErrV>(()),
        )),
{
}

// ---------------------------------------------------------------------------
// Operators
// ---------------------------------------------------------------------------

/// A binary operator applied to two number literals.
pub open spec fn numbers_op(op: crate::ast::BinOp, a: i64, b: i64) -> ExprV {
    ExprV::Binop {
        op,
        expr1: Box::new(ExprV::Literal { val: ValueV::Number { val: a } }),
        expr2: Box::new(ExprV::Literal { val: ValueV::Number { val: b } }),
    }
}

/// Evaluating a literal gives its value.
pub proof fn lemma_literal(fuel: nat, v: ValueV, env: EnvV, g: EnvV, m: ManagerV, svc: Seq<char>)
    ensures
        eval_f(fuel + 1, ExprV::Literal { val: v }, env, g, m, svc) == Some(Ok::<ValueV, ErrV>(v)),
{
}

/// An operator applied to two literals is applied to their values.
pub proof fn lemma_literals_op(fuel: nat, op: crate::ast::BinOp, v1: ValueV, v2: ValueV, env: EnvV, g: EnvV, m: ManagerV, svc: Seq<char>)
    ensures
        eval_f(
            fuel + 2,
            ExprV::Binop { op, expr1: Box::new(ExprV::Literal { val: v1 }), expr2: Box::new(ExprV::Literal { val: v2 }) },
            env,
            g,
            m,
            svc,
        ) == crate::semantics::binop_result(op, v1, v2),
{
    lemma_literal(fuel, v1, env, g, m, svc);
    lemma_literal(fuel, v2, env, g, m, svc);
}

/// Comparisons of numbers are the integer order: `<` is strict (false on
/// equal numbers, and the negation of `>=`), `>` is its converse, and `==`
/// is equality.
pub proof fn law_comparisons(fuel: nat, a: i64, b: i64, env: EnvV, g: EnvV, m: ManagerV, svc: Seq<char>)
    ensures
        eval_f(fuel + 2, numbers_op(crate::ast::BinOp::Lt, a, b), env, g, m, svc) == Some(Ok::<ValueV, ErrV>(ValueV::Bool { val: a < b })),
        eval_f(fuel + 2, numbers_op(crate::ast::BinOp::Gt, a, b), env, g, m, svc) == Some(Ok::<ValueV, ErrV>(ValueV::Bool { val: a > b })),
        eval_f(fuel + 2, numbers_op(crate::ast::BinOp::Eq, a, b), env, g, m, svc) == Some(Ok::<ValueV, ErrV>(ValueV::Bool { val: a == b })),
        eval_f(fuel + 2, numbers_op(crate::ast::BinOp::Lt, a, a), env, g, m, svc) == Some(Ok::<ValueV, ErrV>(ValueV::Bool { val: false })),
        eval_f(fuel + 2, numbers_op(crate::ast::BinOp::Gt, a, a), env, g, m, svc) == Some(Ok::<ValueV, ErrV>(ValueV::Bool { val: false })),
        eval_f(fuel + 2, numbers_op(crate::ast::BinOp::Eq, a, a), env, g, m, svc) == Some(Ok::<ValueV, ErrV>(ValueV::Bool { val: true })),
        eval_f(fuel + 2, numbers_op(crate::ast::BinOp::Lt, a, b), env, g, m, svc) == eval_f(fuel + 2, numbers_op(crate::ast::BinOp::Gt, b, a), env, g, m, svc),
{
    let (na, nb) = (ValueV::Number { val: a }, ValueV::Number { val: b });
    lemma_literals_op(fuel, crate::ast::BinOp::Lt, na, nb, env, g, m, svc);
    lemma_literals_op(fuel, crate::ast::BinOp::Gt, na, nb, env, g, m, svc);
    lemma_literals_op(fuel, crate::ast::BinOp::Eq, na, nb, env, g, m, svc);
    lemma_literals_op(fuel, crate::ast::BinOp::Lt, na, na, env, g, m, svc);
    lemma_literals_op(fuel, crate::ast::BinOp::Gt, na, na, env, g, m, svc);
    lemma_literals_op(fuel, crate::ast::BinOp::Eq, na, na, env, g, m, svc);
    lemma_literals_op(fuel, crate::ast::BinOp::Gt, nb, na, env, g, m, svc);
}

/// Addition, subtraction and multiplication of numbers give the exact
/// integer result where it fits in 64 bits, and no result where it does not.
pub proof fn law_arithmetic(fuel: nat, a: i64, b: i64, env: EnvV, g: EnvV, m: ManagerV, svc: Seq<char>)
    ensures
        eval_f(fuel + 2, numbers_op(crate::ast::BinOp::Add, a, b), env, g, m, svc) == if i64::MIN <= a + b <= i64::MAX {
            Some(Ok::<ValueV, ErrV>(ValueV::Number { val: (a + b) as i64 }))
        } else {
            None
        },
        eval_f(fuel + 2, numbers_op(crate::ast::BinOp::Sub, a, b), env, g, m, svc) == if i64::MIN <= a - b <= i64::MAX {
            Some(Ok::<ValueV, ErrV>(ValueV::Number { val: (a - b) as i64 }))
        } else {
            None
        },
        eval_f(fuel + 2, numbers_op(crate::ast::BinOp::Mul, a, b), env, g, m, svc) == if i64::MIN <= a * b <= i64::MAX {
            Some(Ok::<ValueV, ErrV>(ValueV::Number { val: (a * b) as i64 }))
        } else {
            None
        },
        eval_f(fuel + 2, numbers_op(crate::ast::BinOp::Add, a, b), env, g, m, svc) == eval_f(fuel + 2, numbers_op(crate::ast::BinOp::Add, b, a), env, g, m, svc),
{
    let (na, nb) = (ValueV::Number { val: a }, ValueV::Number { val: b });
    lemma_literals_op(fuel, crate::ast::BinOp::Add, na, nb, env, g, m, svc);
    lemma_literals_op(fuel, crate::ast::BinOp::Add, nb, na, env, g, m, svc);
    lemma_literals_op(fuel, crate::ast::BinOp::Sub, na, nb, env, g, m, svc);
    lemma_literals_op(fuel, crate::ast::BinOp::Mul, na, nb, env, g, m, svc);
}

/// Division of numbers rounds toward zero: where it has a result `q`,
/// `a == q * b + r` with `|r| < |b|` and `r` zero or of the sign of `a`;
/// dividing by zero has no result.
pub proof fn law_division(fuel: nat, a: i64, b: i64, env: EnvV, g: EnvV, m: ManagerV, svc: Seq<char>)
    ensures
        b == 0 ==> eval_f(fuel + 2, numbers_op(crate::ast::BinOp::Div, a, b), env, g, m, svc) is None,
        eval_f(fuel + 2, numbers_op(crate::ast::BinOp::Div, a, b), env, g, m, svc) matches Some(r) ==> (r matches Ok(ValueV::Number { val: q }) && ({
            let rem = a - q * b;
            &&& (if rem >= 0 { rem } else { -rem }) < (if b >= 0 { b as int } else { -b })
            &&& (rem == 0 || (rem > 0) == (a > 0))
        })),
        b != 0 && !(a == i64::MIN && b == -1) ==> eval_f(fuel + 2, numbers_op(crate::ast::BinOp::Div, a, b), env, g, m, svc) is Some,
{
    lemma_literals_op(fuel, crate::ast::BinOp::Div, ValueV::Number { val: a }, ValueV::Number { val: b }, env, g, m, svc);
    let ai = a as int;
    let bi = b as int;
    if bi != 0 {
        let q = crate::semantics::div_toward_zero(ai, bi);
        if ai > 0 && bi > 0 {
            assert(0 <= ai - q * bi < bi) by (nonlinear_arith)
                requires q == ai / bi, ai > 0, bi > 0;
        } else if ai < 0 && bi < 0 {
            assert(0 <= (-ai) - q * (-bi) < -bi) by (nonlinear_arith)
                requires q == (-ai) / (-bi), ai < 0, bi < 0;
            assert(ai - q * bi == -((-ai) - q * (-bi))) by (nonlinear_arith);
        } else if ai < 0 && bi > 0 {
            let q0 = (-ai) / bi;
            assert(0 <= (-ai) - q0 * bi < bi) by (nonlinear_arith)
                requires q0 == (-ai) / bi, ai < 0, bi > 0;
            assert(q == -q0);
            assert(ai - q * bi == -((-ai) - q0 * bi)) by (nonlinear_arith)
                requires q == -q0;
        } else if ai > 0 && bi < 0 {
            let q0 = ai / (-bi);
            assert(0 <= ai - q0 * (-bi) < -bi) by (nonlinear_arith)
                requires q0 == ai / (-bi), ai > 0, bi < 0;
            assert(q == -q0);
            assert(ai - q * bi == ai - q0 * (-bi)) by (nonlinear_arith)
                requires q == -q0;
        }
        if !(a == i64::MIN && b == -1) {
            if ai > 0 && bi > 0 {
                assert(0 <= q <= ai) by (nonlinear_arith) requires q == ai / bi, ai > 0, bi > 0;
            } else if ai < 0 && bi < 0 {
                assert(0 <= q <= -ai) by (nonlinear_arith) requires q == (-ai) / (-bi), ai < 0, bi < 0;
                if ai == i64::MIN {
                    assert(q <= (-ai) / 2) by (nonlinear_arith) requires q == (-ai) / (-bi), ai < 0, bi < -1;
                }
            } else if ai < 0 && bi > 0 {
                assert(0 <= (-ai) / bi <= -ai) by (nonlinear_arith) requires ai < 0, bi > 0;
            } else if ai > 0 && bi < 0 {
                assert(0 <= ai / (-bi) <= ai) by (nonlinear_arith) requires ai > 0, bi < 0;
            }
        }
    }
}

/// Boolean operators on booleans are conjunction and disjunction; any
/// operator on a number and a boolean is a type error.
pub proof fn law_boolean_operators(fuel: nat, p: bool, q: bool, a: i64, op: crate::ast::BinOp, env: EnvV, g: EnvV, m: ManagerV, svc: Seq<char>)
    ensures
        eval_f(
            fuel + 2,
            ExprV::Binop {
                op: crate::ast::BinOp::And,
                expr1: Box::new(ExprV::Literal { val: ValueV::Bool { val: p } }),
                expr2: Box::new(ExprV::Literal { val: ValueV::Bool { val: q } }),
            },
            env,
            g,
            m,
            svc,
        ) == Some(Ok::<ValueV, ErrV>(ValueV::Bool { val: p && q })),
        eval_f(
            fuel + 2,
            ExprV::Binop {
                op: crate::ast::BinOp::Or,
                expr1: Box::new(ExprV::Literal { val: ValueV::Bool { val: p } }),
                expr2: Box::new(ExprV::Literal { val: ValueV::Bool { val: q } }),
            },
            env,
            g,
            m,
            svc,
        ) == Some(Ok::<ValueV, ErrV>(ValueV::Bool { val: p || q })),
        eval_f(
            fuel + 2,
            ExprV::Binop {
                op,
                expr1: Box::new(ExprV::Literal { val: ValueV::Number { val: a } }),
                expr2: Box::new(ExprV::Literal { val: ValueV::Bool { val: q } }),
            },
            env,
            g,
            m,
            svc,
        ) is Some && eval_f(
            fuel + 2,
            ExprV::Binop {
                op,
                expr1: Box::new(ExprV::Literal { val: ValueV::Number { val: a } }),
                expr2: Box::new(ExprV::Literal { val: ValueV::Bool { val: q } }),
            },
            env,
            g,
            m,
            svc,
        )->0 is Err,
{
    lemma_literals_op(fuel, crate::ast::BinOp::And, ValueV::Bool { val: p }, ValueV::Bool { val: q }, env, g, m, svc);
    lemma_literals_op(fuel, crate::ast::BinOp::Or, ValueV::Bool { val: p }, ValueV::Bool { val: q }, env, g, m, svc);
    lemma_literals_op(fuel, op, ValueV::Number { val: a }, ValueV::Bool { val: q }, env, g, m, svc);
}

/// Recomputing along `o1 + o2` is recomputing along `o1`, then, if that
/// succeeded, along `o2` from the state it left: every definition of the
/// order gets its turn, not only the first.
pub proof fn law_propagate_sequence(
    fuel: nat,
    m: ManagerV,
    svc: Seq<char>,
    changed: Seq<char>,
    o1: Seq<Seq<char>>,
    o2: Seq<Seq<char>>,
)
    ensures
        propagate_f(fuel, m, svc, changed, o1 + o2) == match propagate_f(fuel, m, svc, changed, o1) {
            Some((m1, Ok(()))) => propagate_f(fuel, m1, svc, changed, o2),
            other => other,
        },
    decreases o1.len(),
{
    if o1.len() == 0 {
        assert(o1 + o2 =~= o2);
    } else {
        let o = o1 + o2;
        let d = o1[0];
        assert(o[0] == d);
        assert(o.drop_first() =~= o1.drop_first() + o2);
        match service_named(m, svc) {
            Some(s) => if crate::semantics::depends_on(s, d, changed) && assoc_get(s.defs, d) is Some {
                match eval_f(fuel, assoc_get(s.defs, d)->0, Seq::empty(), s.vars, m, svc) {
                    Some(Ok(v)) => law_propagate_sequence(fuel, with_var(m, s, d, v), svc, changed, o1.drop_first(), o2),
                    _ => {},
                }
            } else {
                law_propagate_sequence(fuel, m, svc, changed, o1.drop_first(), o2);
            },
            None => law_propagate_sequence(fuel, m, svc, changed, o1.drop_first(), o2),
        }
    }
}

/// Recomputing along no definition changes nothing; recomputing along one
/// definition that depends on `changed` stores the value of its
/// expression, evaluated with the service's current variables, and any
/// other name changes nothing.
pub proof fn law_propagate_one(fuel: nat, m: ManagerV, svc: Seq<char>, changed: Seq<char>, d: Seq<char>)
    ensures
        propagate_f(fuel, m, svc, changed, Seq::empty()) == Some((m, Ok::<(), ErrV>(()))),
        propagate_f(fuel, m, svc, changed, seq![d]) == match service_named(m, svc) {
            Some(s) => if crate::semantics::depends_on(s, d, changed) && assoc_get(s.defs, d) is Some {
                match eval_f(fuel, assoc_get(s.defs, d)->0, Seq::empty(), s.vars, m, svc) {
                    Some(Ok(v)) => Some((with_var(m, s, d, v), Ok(()))),
                    Some(Err(e)) => Some((m, Err(e))),
                    None => None,
                }
            } else {
                Some((m, Ok(())))
            },
            None => Some((m, Ok(()))),
        },
{
    let none = Seq::<Seq<char>>::empty();
    assert(seq![d].drop_first() =~= none);
    assert(seq![d][0] == d);
    match service_named(m, svc) {
        Some(s) => if crate::semantics::depends_on(s, d, changed) && assoc_get(s.defs, d) is Some {
            match eval_f(fuel, assoc_get(s.defs, d)->0, Seq::empty(), s.vars, m, svc) {
                Some(Ok(v)) => {
                    assert(propagate_f(fuel, with_var(m, s, d, v), svc, changed, none) == Some((with_var(m, s, d, v), Ok::<(), ErrV>(()))));
                },
                _ => {},
            }
        } else {
            assert(propagate_f(fuel, m, svc, changed, none) == Some((m, Ok::<(), ErrV>(()))));
        },
        None => {
            assert(propagate_f(fuel, m, svc, changed, none) == Some((m, Ok::<(), ErrV>(()))));
        },
    }
}

/// Recomputing along an order leaves the binding of a name outside it as
/// it was, and keeps the service.
pub proof fn lemma_propagate_untouched(
    fuel: nat,
    m: ManagerV,
    svc: Seq<char>,
    changed: Seq<char>,
    order: Seq<Seq<char>>,
    y: Seq<char>,
)
    requires
        service_named(m, svc) is Some,
        !order.contains(y),
    ensures
        propagate_f(fuel, m, svc, changed, order) matches Some((m2, _)) ==> {
            &&& service_named(m2, svc) is Some
            &&& assoc_get(service_named(m2, svc)->0.vars, y) == assoc_get(service_named(m, svc)->0.vars, y)
        },
    decreases order.len(),
{
    if order.len() > 0 {
        let d = order[0];
        let s = service_named(m, svc)->0;
        assert(d != y);
        assert forall|z: Seq<char>| order.drop_first().contains(z) implies order.contains(z) by {
            let i = choose|i: int| 0 <= i < order.drop_first().len() && order.drop_first()[i] == z;
            assert(order[i + 1] == z);
        }
        if crate::semantics::depends_on(s, d, changed) && assoc_get(s.defs, d) is Some {
            match eval_f(fuel, assoc_get(s.defs, d)->0, Seq::empty(), s.vars, m, svc) {
                Some(Ok(v)) => {
                    let s2 = ServiceV { vars: assoc_put(s.vars, d, v), ..s };
                    assert(s.name == svc) by {
                        lemma_service_named_name(m, svc);
                    }
                    lemma_put_service_named(m, s2);
                    lemma_assoc_put_other(s.vars, d, v, y);
                    lemma_propagate_untouched(fuel, with_var(m, s, d, v), svc, changed, order.drop_first(), y);
                },
                _ => {},
            }
        } else {
            lemma_propagate_untouched(fuel, m, svc, changed, order.drop_first(), y);
        }
    }
}

/// Every definition in the order is recomputed in its turn: once
/// recomputing along `order` has succeeded, a definition `order[k]` that
/// depends on `changed` (and does not come again later in the order) holds
/// the value of its expression, evaluated with the variables as the
/// definitions before it in the order left them.
pub proof fn law_propagate_recomputes_every_dependent(
    fuel: nat,
    m: ManagerV,
    svc: Seq<char>,
    changed: Seq<char>,
    order: Seq<Seq<char>>,
    k: int,
)
    requires
        0 <= k < order.len(),
        !order.skip(k + 1).contains(order[k]),
        propagate_f(fuel, m, svc, changed, order) matches Some((_, Ok(()))),
    ensures
        propagate_f(fuel, m, svc, changed, order.take(k)) matches Some((_, Ok(()))),
        ({
            let mk = (propagate_f(fuel, m, svc, changed, order.take(k))->0).0;
            let sk = service_named(mk, svc)->0;
            let m2 = (propagate_f(fuel, m, svc, changed, order)->0).0;
            let ev = eval_f(fuel, assoc_get(sk.defs, order[k])->0, Seq::empty(), sk.vars, mk, svc);
            service_named(mk, svc) is Some && crate::semantics::depends_on(sk, order[k], changed) && assoc_get(sk.defs, order[k]) is Some
                ==> {
                &&& ev is Some && ev->0 is Ok
                &&& service_named(m2, svc) is Some
                &&& assoc_get(service_named(m2, svc)->0.vars, order[k]) == Some(ev->0->Ok_0)
            }
        }),
{
    let d = order[k];
    let pre = order.take(k);
    let rest = order.skip(k + 1);
    assert(order =~= pre + (seq![d] + rest));
    law_propagate_sequence(fuel, m, svc, changed, pre, seq![d] + rest);
    let mk = (propagate_f(fuel, m, svc, changed, pre)->0).0;
    law_propagate_sequence(fuel, mk, svc, changed, seq![d], rest);
    law_propagate_one(fuel, mk, svc, changed, d);
    match service_named(mk, svc) {
        Some(sk) => if crate::semantics::depends_on(sk, d, changed) && assoc_get(sk.defs, d) is Some {
            let v = eval_f(fuel, assoc_get(sk.defs, d)->0, Seq::empty(), sk.vars, mk, svc)->0->Ok_0;
            let s2 = ServiceV { vars: assoc_put(sk.vars, d, v), ..sk };
            let md = with_var(mk, sk, d, v);
            assert(sk.name == svc) by {
                lemma_service_named_name(mk, svc);
            }
            lemma_put_service_named(mk, s2);
            lemma_assoc_put_same(sk.vars, d, v);
            lemma_propagate_untouched(fuel, md, svc, changed, rest, d);
        },
        None => {},
    }
}

/// After an assignment of variable `x` in service `svc` has succeeded,
/// every definition that depends on `x`, in the order of the dependency
/// analysis and not only the first, holds the value of its expression
/// evaluated with `x` bound to `v` and the definitions before it already
/// recomputed.
pub proof fn law_assignment_recomputes_every_dependent(
    fuel: nat,
    m: ManagerV,
    svc: Seq<char>,
    x: Seq<char>,
    v: ValueV,
    k: int,
)
    requires
        service_named(m, svc) matches Some(s) && assoc_get(s.vars, x) is Some && 0 <= k < s.dep.topo_order.len()
            && !s.dep.topo_order.skip(k + 1).contains(s.dep.topo_order[k]),
        assign_f(fuel, m, svc, x, v) matches Some((_, Ok(()))),
    ensures
        ({
            let s = service_named(m, svc)->0;
            let order = s.dep.topo_order;
            let d = order[k];
            let m0 = with_var(m, s, x, v);
            let pk = propagate_f(fuel, m0, svc, x, order.take(k));
            let mk = (pk->0).0;
            let sk = service_named(mk, svc)->0;
            let m2 = (assign_f(fuel, m, svc, x, v)->0).0;
            let ev = eval_f(fuel, assoc_get(sk.defs, d)->0, Seq::empty(), sk.vars, mk, svc);
            &&& pk matches Some((_, Ok(())))
            &&& service_named(mk, svc) is Some && crate::semantics::depends_on(sk, d, x) && assoc_get(sk.defs, d) is Some ==> {
                &&& ev is Some && ev->0 is Ok
                &&& service_named(m2, svc) is Some
                &&& assoc_get(service_named(m2, svc)->0.vars, d) == Some(ev->0->Ok_0)
            }
        }),
{
    let s = service_named(m, svc)->0;
    law_propagate_recomputes_every_dependent(fuel, with_var(m, s, x, v), svc, x, s.dep.topo_order, k);
}

/// Running `s1 + s2` is running `s1`, then, if that succeeded, `s2` from
/// the state it left: all the statements run, in order.
pub proof fn law_exec_sequence(
    fuel: nat,
    m: ManagerV,
    s1: Seq<StmtV>,
    s2: Seq<StmtV>,
    env: EnvV,
    svc: Seq<char>,
    ra: bool,
)
    ensures
        exec_stmts_f(fuel, m, s1 + s2, env, svc, ra) == match exec_stmts_f(fuel, m, s1, env, svc, ra) {
            Some((m1, Ok(()))) => exec_stmts_f(fuel, m1, s2, env, svc, ra),
            other => other,
        },
    decreases s1.len(),
{
    if s1.len() == 0 {
        assert(s1 + s2 =~= s2);
    } else {
        let st = s1 + s2;
        assert(st[0] == s1[0]);
        assert(st.drop_first() =~= s1.drop_first() + s2);
        match exec_stmt_f(fuel, m, s1[0], env, svc, ra) {
            Some((m1, Ok(()))) => law_exec_sequence(fuel, m1, s1.drop_first(), s2, env, svc, ra),
            _ => {},
        }
    }
}

/// Running no statement changes nothing, and running one statement is
/// running it.
pub proof fn law_exec_one(fuel: nat, m: ManagerV, a: StmtV, env: EnvV, svc: Seq<char>, ra: bool)
    ensures
        exec_stmts_f(fuel, m, Seq::empty(), env, svc, ra) == Some((m, Ok::<(), ErrV>(()))),
        exec_stmts_f(fuel, m, seq![a], env, svc, ra) == exec_stmt_f(fuel, m, a, env, svc, ra),
{
    let one = seq![a];
    let none = Seq::<StmtV>::empty();
    assert(one.drop_first() =~= none);
    assert(one[0] == a);
    assert(one.len() == 1);
    let r = exec_stmt_f(fuel, m, a, env, svc, ra);
    assert(exec_stmts_f(fuel, m, one, env, svc, ra) == match r {
        Some((m1, Ok(()))) => exec_stmts_f(fuel, m1, none, env, svc, ra),
        other => other,
    });
    match r {
        Some((m1, Ok(u))) => {
            let unit: () = ();
            assert(u == unit);
            assert(exec_stmts_f(fuel, m1, none, env, svc, ra) == Some((m1, Ok::<(), ErrV>(()))));
        },
        _ => {},
    }
}

/// Running two statements runs the second from the state the first left,
/// when the first succeeded.
pub proof fn law_exec_two(fuel: nat, m: ManagerV, a: StmtV, b: StmtV, env: EnvV, svc: Seq<char>, ra: bool)
    ensures
        exec_stmts_f(fuel, m, seq![a, b], env, svc, ra) == match exec_stmt_f(fuel, m, a, env, svc, ra) {
            Some((m1, Ok(()))) => exec_stmt_f(fuel, m1, b, env, svc, ra),
            other => other,
        },
{
    assert(seq![a, b] =~= seq![a] + seq![b]);
    law_exec_sequence(fuel, m, seq![a], seq![b], env, svc, ra);
    law_exec_one(fuel, m, a, env, svc, ra);
    match exec_stmt_f(fuel, m, a, env, svc, ra) {
        Some((m1, Ok(()))) => law_exec_one(fuel, m1, b, env, svc, ra),
        _ => {},
    }
}

/// Running the statements of a test `s1 + s2` is running `s1`, then, if
/// that succeeded, `s2` from the state it left.
pub proof fn law_run_test_sequence(fuel: nat, m: ManagerV, svc: Seq<char>, s1: Seq<StmtV>, s2: Seq<StmtV>)
    ensures
        crate::semantics::run_test_f(fuel, m, svc, s1 + s2) == match crate::semantics::run_test_f(fuel, m, svc, s1) {
            Some((m1, Ok(()))) => crate::semantics::run_test_f(fuel, m1, svc, s2),
            other => other,
        },
    decreases s1.len(),
{
    if s1.len() == 0 {
        assert(s1 + s2 =~= s2);
    } else {
        let st = s1 + s2;
        assert(st[0] == s1[0]);
        assert(st.drop_first() =~= s1.drop_first() + s2);
        match exec_stmt_f(fuel, m, s1[0], Seq::empty(), svc, false) {
            Some((m1, Ok(()))) => law_run_test_sequence(fuel, m1, svc, s1.drop_first(), s2),
            _ => {},
        }
    }
}

/// An operator applied to a literal is applied to its value.
pub proof fn lemma_literal_unop(fuel: nat, op: crate::ast::UnOp, v: ValueV, env: EnvV, g: EnvV, m: ManagerV, svc: Seq<char>)
    ensures
        eval_f(fuel + 2, ExprV::Unop { op, expr: Box::new(ExprV::Literal { val: v }) }, env, g, m, svc)
            == crate::semantics::unop_result(op, v),
{
    lemma_literal(fuel, v, env, g, m, svc);
}

/// Negation of a number is its opposite, with no result where that does
/// not fit (the least number); `!` of a boolean is its negation, and
/// twice is the identity; negating a boolean or `!` of a number is a
/// type error.
pub proof fn law_unary_operators(fuel: nat, a: i64, p: bool, env: EnvV, g: EnvV, m: ManagerV, svc: Seq<char>)
    ensures
        eval_f(
            fuel + 2,
            ExprV::Unop { op: crate::ast::UnOp::Neg, expr: Box::new(ExprV::Literal { val: ValueV::Number { val: a } }) },
            env,
            g,
            m,
            svc,
        ) == (if a == i64::MIN {
            None
        } else {
            Some(Ok::<ValueV, ErrV>(ValueV::Number { val: (-a) as i64 }))
        }),
        eval_f(
            fuel + 2,
            ExprV::Unop { op: crate::ast::UnOp::Not, expr: Box::new(ExprV::Literal { val: ValueV::Bool { val: p } }) },
            env,
            g,
            m,
            svc,
        ) == Some(Ok::<ValueV, ErrV>(ValueV::Bool { val: !p })),
        crate::semantics::unop_result(crate::ast::UnOp::Not, ValueV::Bool { val: !p }) == Some(
            Ok::<ValueV, ErrV>(ValueV::Bool { val: p }),
        ),
        eval_f(
            fuel + 2,
            ExprV::Unop { op: crate::ast::UnOp::Neg, expr: Box::new(ExprV::Literal { val: ValueV::Bool { val: p } }) },
            env,
            g,
            m,
            svc,
        ) matches Some(Err(_)),
        eval_f(
            fuel + 2,
            ExprV::Unop { op: crate::ast::UnOp::Not, expr: Box::new(ExprV::Literal { val: ValueV::Number { val: a } }) },
            env,
            g,
            m,
            svc,
        ) matches Some(Err(_)),
{
    lemma_literal_unop(fuel, crate::ast::UnOp::Neg, ValueV::Number { val: a }, env, g, m, svc);
    lemma_literal_unop(fuel, crate::ast::UnOp::Not, ValueV::Bool { val: p }, env, g, m, svc);
    lemma_literal_unop(fuel, crate::ast::UnOp::Neg, ValueV::Bool { val: p }, env, g, m, svc);
    lemma_literal_unop(fuel, crate::ast::UnOp::Not, ValueV::Number { val: a }, env, g, m, svc);
}

/// The arguments of a call evaluate to values exactly when each argument
/// does, and then to the values of all of them, one for each, in order.
pub proof fn law_arguments_evaluate_each(fuel: nat, args: Seq<ExprV>, vs: Seq<ValueV>, env: EnvV, g: EnvV, m: ManagerV, svc: Seq<char>)
    ensures
        eval_args(fuel, args, env, g, m, svc) == Some(Ok::<Seq<ValueV>, ErrV>(vs)) <==> (vs.len() == args.len() && forall|i: int|
            0 <= i < args.len() ==> #[trigger] eval_f(fuel, args[i], env, g, m, svc) == Some(Ok::<ValueV, ErrV>(vs[i]))),
    decreases args.len(),
{
    if args.len() == 0 {
        if vs.len() == 0 {
            assert(vs =~= Seq::<ValueV>::empty());
        }
    } else {
        let rest = args.drop_first();
        if vs.len() > 0 {
            law_arguments_evaluate_each(fuel, rest, vs.drop_first(), env, g, m, svc);
            assert(vs =~= seq![vs[0]] + vs.drop_first());
            if eval_args(fuel, args, env, g, m, svc) == Some(Ok::<Seq<ValueV>, ErrV>(vs)) {
                let v0 = eval_f(fuel, args[0], env, g, m, svc)->0->Ok_0;
                let r = eval_args(fuel, rest, env, g, m, svc)->0->Ok_0;
                assert(seq![v0] + r == vs);
                assert(v0 == vs[0]);
                assert(r =~= vs.drop_first()) by {
                    assert forall|i: int| 0 <= i < r.len() implies r[i] == vs.drop_first()[i] by {
                        assert((seq![v0] + r)[i + 1] == r[i]);
                    }
                }
                assert forall|i: int| 0 <= i < args.len() implies #[trigger] eval_f(fuel, args[i], env, g, m, svc) == Some(
                    Ok::<ValueV, ErrV>(vs[i]),
                ) by {
                    if i > 0 {
                        assert(rest[i - 1] == args[i]);
                        assert(eval_f(fuel, rest[i - 1], env, g, m, svc) == Some(Ok::<ValueV, ErrV>(vs.drop_first()[i - 1])));
                    }
                }
            }
            if vs.len() == args.len() && forall|i: int|
                0 <= i < args.len() ==> #[trigger] eval_f(fuel, args[i], env, g, m, svc) == Some(Ok::<ValueV, ErrV>(vs[i])) {
                assert(eval_f(fuel, args[0], env, g, m, svc) == Some(Ok::<ValueV, ErrV>(vs[0])));
                assert forall|i: int| 0 <= i < rest.len() implies #[trigger] eval_f(fuel, rest[i], env, g, m, svc) == Some(
                    Ok::<ValueV, ErrV>(vs.drop_first()[i]),
                ) by {
                    assert(rest[i] == args[i + 1]);
                    assert(eval_f(fuel, args[i + 1], env, g, m, svc) == Some(Ok::<ValueV, ErrV>(vs[i + 1])));
                }
            }
        } else {
            if let Some(Ok(r)) = eval_args(fuel, args, env, g, m, svc) {
                assert(r.len() > 0);
            }
        }
    }
}

/// In the bindings of a call, each parameter is bound to the argument in
/// its place (a later parameter of the same name wins), and a name that is
/// no parameter keeps its captured binding.
pub proof fn law_parameters_bind_arguments(env: EnvV, params: Seq<Seq<char>>, args: Seq<ValueV>, i: int, y: Seq<char>)
    requires
        0 <= i < params.len(),
        i < args.len(),
        forall|j: int| i < j < params.len() && j < args.len() ==> params[j] != params[i],
    ensures
        assoc_get(crate::scope::bind_params(env, params, args), params[i]) == Some(args[i]),
        (forall|j: int| 0 <= j < params.len() && j < args.len() ==> params[j] != y) ==> assoc_get(
            crate::scope::bind_params(env, params, args),
            y,
        ) == assoc_get(env, y),
{
    let n = if params.len() <= args.len() { params.len() } else { args.len() };
    let b = crate::scope::bind_params(env, params, args);
    let ks = keys_of(b);
    let ke = keys_of(env);
    assert(b.len() == env.len() + n);
    assert(ks[env.len() + i] == params[i]);
    assert forall|j: int| env.len() + i < j < ks.len() implies ks[j] != params[i] by {
        assert(ks[j] == params[j - env.len()]);
    }
    lemma_last_index_unique(ks, params[i], env.len() + i);
    if forall|j: int| 0 <= j < params.len() && j < args.len() ==> params[j] != y {
        lemma_last_index(ke, y);
        let t = last_index(ke, y);
        assert forall|j: int| env.len() <= j < ks.len() implies ks[j] != y by {
            assert(ks[j] == params[j - env.len()]);
        }
        if t >= 0 {
            assert(ks[t] == ke[t]);
            assert forall|j: int| t < j < ks.len() implies ks[j] != y by {
                if j < env.len() {
                    assert(ks[j] == ke[j]);
                }
            }
            lemma_last_index_unique(ks, y, t);
        } else {
            assert forall|j: int| 0 <= j < ks.len() implies ks[j] != y by {
                if j < env.len() {
                    assert(ks[j] == ke[j]);
                }
            }
            crate::scope::lemma_last_index_none(ks, y);
        }
    }
}

/// Scoping is lexical: calling a function value on a literal argument
/// gives the same outcome whatever the caller's local and service
/// bindings; only what the value captured, and the argument, count.
pub proof fn law_calls_are_lexically_scoped(
    fuel: nat,
    params: Seq<Seq<char>>,
    body: ExprV,
    cenv: EnvV,
    v: ValueV,
    env1: EnvV,
    g1: EnvV,
    env2: EnvV,
    g2: EnvV,
    m: ManagerV,
    svc: Seq<char>,
)
    ensures
        ({
            let call = ExprV::Call {
                func: Box::new(ExprV::Literal { val: ValueV::Closure { params, body: Box::new(body), env: cenv } }),
                args: seq![ExprV::Literal { val: v }],
            };
            eval_f(fuel + 2, call, env1, g1, m, svc) == eval_f(fuel + 2, call, env2, g2, m, svc)
        }),
{
    lemma_one_literal_argument(fuel, v, env1, g1, m, svc);
    lemma_one_literal_argument(fuel, v, env2, g2, m, svc);
    lemma_literal(fuel, ValueV::Closure { params, body: Box::new(body), env: cenv }, env1, g1, m, svc);
    lemma_literal(fuel, ValueV::Closure { params, body: Box::new(body), env: cenv }, env2, g2, m, svc);
}

/// A single literal argument evaluates to its value.
pub proof fn lemma_one_literal_argument(fuel: nat, v: ValueV, env: EnvV, g: EnvV, m: ManagerV, svc: Seq<char>)
    ensures
        eval_args(fuel + 1, seq![ExprV::Literal { val: v }], env, g, m, svc) == Some(Ok::<Seq<ValueV>, ErrV>(seq![v])),
{
    let args = seq![ExprV::Literal { val: v }];
    let none = Seq::<ExprV>::empty();
    assert(args.drop_first() =~= none);
    assert(args[0] == ExprV::Literal { val: v });
    lemma_literal(fuel, v, env, g, m, svc);
    assert(eval_args(fuel + 1, none, env, g, m, svc) == Some(Ok::<Seq<ValueV>, ErrV>(Seq::<ValueV>::empty())));
    assert(seq![v] + Seq::<ValueV>::empty() =~= seq![v]);
}

/// Calling the identity function `|p| p` on a value gives that value back,
/// whatever the bindings at hand.
pub proof fn law_identity_call(fuel: nat, p: Seq<char>, v: ValueV, env: EnvV, g: EnvV, m: ManagerV, svc: Seq<char>)
    ensures
        eval_f(
            fuel + 3,
            ExprV::Call {
                func: Box::new(ExprV::Func { params: seq![p], body: Box::new(ExprV::Variable { ident: p }) }),
                args: seq![ExprV::Literal { val: v }],
            },
            env,
            g,
            m,
            svc,
        ) == Some(Ok::<ValueV, ErrV>(v)),
{
    let f = ExprV::Func { params: seq![p], body: Box::new(ExprV::Variable { ident: p }) };
    let cenv = capture(g + env, f);
    let vs = seq![v];
    lemma_one_literal_argument(fuel + 1, v, env, g, m, svc);
    law_parameters_bind_arguments(cenv, seq![p], vs, 0, p);
    let bound = crate::scope::bind_params(cenv, seq![p], vs);
    assert(assoc_get(bound, p) == Some(v));
    assert(eval_f(fuel + 2, f, env, g, m, svc) == Some(
        Ok::<ValueV, ErrV>(ValueV::Closure { params: seq![p], body: Box::new(ExprV::Variable { ident: p }), env: cenv }),
    ));
    assert(eval_f(fuel + 2, ExprV::Variable { ident: p }, bound, Seq::empty(), m, svc) == Some(Ok::<ValueV, ErrV>(v)));
    law_call(fuel + 2, f, seq![ExprV::Literal { val: v }], env, g, m, svc);
}

} // verus!
