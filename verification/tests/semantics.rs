use meerkat_lib::dependency::calc_dep_srv;
use meerkat_lib::evaluator::eval_fuel;
use meerkat_lib::scope::occurs_free;
use meerkat_lib::{eval, execute, ActionStmt, BinOp, Decl, EvalContext, EvalError, Expr, Manager, UnOp, Value};

fn num(n: i64) -> Expr {
    Expr::Literal { val: Value::Number { val: n } }
}

fn boolean(b: bool) -> Expr {
    Expr::Literal { val: Value::Bool { val: b } }
}

fn var(x: &str) -> Expr {
    Expr::Variable { ident: x.to_string() }
}

fn bin(op: BinOp, a: Expr, b: Expr) -> Expr {
    Expr::Binop { op, expr1: Box::new(a), expr2: Box::new(b) }
}

fn eval_in(manager: &Manager, service: &str, e: &Expr) -> Result<Value, EvalError> {
    let ctx = EvalContext { manager, service_name: service };
    eval(e, &[], &ctx)
}

fn type_error(r: Result<Value, EvalError>) -> String {
    match r {
        Err(EvalError::TypeError(s)) => s,
        other => panic!("expected a type error, got {:?}", other),
    }
}

fn lookup_error(r: Result<Value, EvalError>) -> String {
    match r {
        Err(EvalError::LookupError(s)) => s,
        other => panic!("expected a lookup error, got {:?}", other),
    }
}

/// service foo { var x = 1; def f = x + 1; def g = f * 2; }
fn chain_service() -> Manager {
    let mut m = Manager::new();
    let decls = vec![
        Decl::VarDecl { name: "x".to_string(), val: num(1) },
        Decl::DefDecl { name: "f".to_string(), val: bin(BinOp::Add, var("x"), num(1)), is_pub: true },
        Decl::DefDecl { name: "g".to_string(), val: bin(BinOp::Mul, var("f"), num(2)), is_pub: false },
    ];
    m.create_service("foo".to_string(), decls).unwrap();
    m
}

#[test]
fn arithmetic_and_comparisons() {
    let m = Manager::new();
    assert_eq!(eval_in(&m, "", &bin(BinOp::Sub, num(2), num(7))).unwrap(), Value::Number { val: -5 });
    assert_eq!(eval_in(&m, "", &bin(BinOp::Mul, num(6), num(7))).unwrap(), Value::Number { val: 42 });
    assert_eq!(eval_in(&m, "", &bin(BinOp::Div, num(-7), num(2))).unwrap(), Value::Number { val: -3 });
    assert_eq!(eval_in(&m, "", &bin(BinOp::Eq, num(3), num(3))).unwrap(), Value::Bool { val: true });
    assert_eq!(eval_in(&m, "", &bin(BinOp::Lt, num(3), num(2))).unwrap(), Value::Bool { val: false });
    assert_eq!(eval_in(&m, "", &bin(BinOp::Gt, num(3), num(2))).unwrap(), Value::Bool { val: true });
    assert_eq!(eval_in(&m, "", &bin(BinOp::And, boolean(true), boolean(false))).unwrap(), Value::Bool { val: false });
    assert_eq!(eval_in(&m, "", &bin(BinOp::Or, boolean(true), boolean(false))).unwrap(), Value::Bool { val: true });
    let neg = Expr::Unop { op: UnOp::Neg, expr: Box::new(num(4)) };
    assert_eq!(eval_in(&m, "", &neg).unwrap(), Value::Number { val: -4 });
    let not = Expr::Unop { op: UnOp::Not, expr: Box::new(boolean(false)) };
    assert_eq!(eval_in(&m, "", &not).unwrap(), Value::Bool { val: true });
}

#[test]
fn type_errors() {
    let m = Manager::new();
    assert_eq!(type_error(eval_in(&m, "", &bin(BinOp::Add, num(1), boolean(true)))), "Type error in binary operation");
    assert_eq!(type_error(eval_in(&m, "", &bin(BinOp::And, num(1), num(2)))), "Type error in binary operation");
    let bad_not = Expr::Unop { op: UnOp::Not, expr: Box::new(num(1)) };
    assert_eq!(type_error(eval_in(&m, "", &bad_not)), "Type error in unary operation");
    let bad_if = Expr::If { cond: Box::new(num(1)), expr1: Box::new(num(2)), expr2: Box::new(num(3)) };
    assert_eq!(type_error(eval_in(&m, "", &bad_if)), "Condition must be boolean");
    let bad_call = Expr::Call { func: Box::new(num(1)), args: vec![] };
    assert_eq!(type_error(eval_in(&m, "", &bad_call)), "Attempting to call a non-function value");
}

#[test]
fn conditional_takes_one_branch() {
    let m = Manager::new();
    let e = Expr::If { cond: Box::new(bin(BinOp::Lt, num(1), num(2))), expr1: Box::new(num(10)), expr2: Box::new(var("missing")) };
    assert_eq!(eval_in(&m, "", &e).unwrap(), Value::Number { val: 10 });
}

#[test]
fn later_bindings_shadow_earlier_ones() {
    let m = Manager::new();
    let ctx = EvalContext { manager: &m, service_name: "" };
    let env = vec![
        ("a".to_string(), Value::Number { val: 1 }),
        ("a".to_string(), Value::Number { val: 2 }),
    ];
    assert_eq!(eval(&var("a"), &env, &ctx).unwrap(), Value::Number { val: 2 });
}

#[test]
fn closure_uses_captured_bindings() {
    let m = Manager::new();
    let ctx = EvalContext { manager: &m, service_name: "" };
    let env = vec![("k".to_string(), Value::Number { val: 100 })];
    let f = eval(
        &Expr::Func { params: vec!["x".to_string(), "y".to_string()], body: Box::new(bin(BinOp::Add, var("x"), var("k"))) },
        &env,
        &ctx,
    )
    .unwrap();
    let call = Expr::Call { func: Box::new(Expr::Literal { val: f }), args: vec![num(5), num(6)] };
    assert_eq!(eval(&call, &[], &ctx).unwrap(), Value::Number { val: 105 });
}

#[test]
fn action_captures_free_variables_and_service() {
    let m = Manager::new();
    let ctx = EvalContext { manager: &m, service_name: "svc" };
    let env = vec![
        ("a".to_string(), Value::Number { val: 1 }),
        ("b".to_string(), Value::Number { val: 2 }),
    ];
    let act = Expr::Action(vec![ActionStmt::Assign { var: "x".to_string(), expr: var("b") }]);
    match eval(&act, &env, &ctx).unwrap() {
        Value::ActionClosure { stmts, env, service_name } => {
            assert_eq!(stmts.len(), 1);
            assert_eq!(env, vec![("b".to_string(), Value::Number { val: 2 })]);
            assert_eq!(service_name, "svc");
        }
        other => panic!("expected an action, got {:?}", other),
    }
}

#[test]
fn free_variables() {
    let f = Expr::Func { params: vec!["x".to_string()], body: Box::new(bin(BinOp::Add, var("x"), var("y"))) };
    assert!(!occurs_free(&f, &"x".to_string()));
    assert!(occurs_free(&f, &"y".to_string()));
    assert!(!occurs_free(&Expr::MemberAccess { service: "s".to_string(), member: "y".to_string() }, &"y".to_string()));
}

#[test]
fn lookup_errors_name_the_variable_and_service() {
    let m = chain_service();
    assert_eq!(lookup_error(m.lookup("zzz", "foo")), "Variable 'zzz' not found in service 'foo'");
    assert_eq!(lookup_error(m.lookup("x", "nope")), "Variable 'x' not found in service 'nope'");
    let empty = Manager::default();
    assert_eq!(lookup_error(empty.lookup("x", "foo")), "Variable 'x' not found in service 'foo'");
}

#[test]
fn member_access_reads_another_service() {
    let m = chain_service();
    let e = Expr::MemberAccess { service: "foo".to_string(), member: "g".to_string() };
    assert_eq!(eval_in(&m, "other", &e).unwrap(), Value::Number { val: 4 });
    let v = eval_in(&m, "foo", &var("x")).unwrap();
    assert_eq!(v, Value::Number { val: 1 });
}

#[test]
fn read_after_write() {
    let mut m = chain_service();
    m.assign("foo", "x", Value::Number { val: 7 }).unwrap();
    assert_eq!(m.lookup("x", "foo").unwrap(), Value::Number { val: 7 });
}

#[test]
fn assignment_propagates_through_definitions() {
    let mut m = chain_service();
    assert_eq!(m.lookup("g", "foo").unwrap(), Value::Number { val: 4 });
    m.assign("foo", "x", Value::Number { val: 5 }).unwrap();
    assert_eq!(m.lookup("f", "foo").unwrap(), Value::Number { val: 6 });
    assert_eq!(m.lookup("g", "foo").unwrap(), Value::Number { val: 12 });
    let cached_f = m.services[0].vars.iter().find(|(n, _)| n == "f").unwrap();
    assert_eq!(cached_f.1, Value::Number { val: 6 });
}

#[test]
fn assigning_unknown_names_changes_nothing() {
    let mut m = chain_service();
    match m.assign("foo", "y", Value::Number { val: 1 }) {
        Err(EvalError::LookupError(s)) => assert_eq!(s, "Variable 'y' not found in service 'foo'"),
        other => panic!("unexpected {:?}", other),
    }
    match m.assign("bar", "x", Value::Number { val: 1 }) {
        Err(EvalError::LookupError(s)) => assert_eq!(s, "Service 'bar' not found"),
        other => panic!("unexpected {:?}", other),
    }
    assert_eq!(m.lookup("x", "foo").unwrap(), Value::Number { val: 1 });
    assert_eq!(m.services.len(), 1);
}

#[test]
fn table_declarations_are_not_implemented() {
    let mut m = Manager::new();
    let decls = vec![
        Decl::VarDecl { name: "x".to_string(), val: num(1) },
        Decl::TableDecl { name: "t".to_string() },
    ];
    assert!(matches!(m.create_service("foo".to_string(), decls), Err(EvalError::NotImplemented)));
    assert_eq!(m.services.len(), 0);
}

#[test]
fn creating_a_service_again_replaces_it() {
    let mut m = chain_service();
    m.create_service("foo".to_string(), vec![Decl::VarDecl { name: "z".to_string(), val: num(9) }]).unwrap();
    assert_eq!(m.services.len(), 1);
    assert_eq!(m.lookup("z", "foo").unwrap(), Value::Number { val: 9 });
    assert!(m.lookup("x", "foo").is_err());
}

#[test]
fn declarations_see_earlier_ones_only() {
    let mut m = Manager::new();
    let decls = vec![
        Decl::DefDecl { name: "f".to_string(), val: var("x"), is_pub: false },
        Decl::VarDecl { name: "x".to_string(), val: num(1) },
    ];
    match m.create_service("foo".to_string(), decls) {
        Err(EvalError::LookupError(s)) => assert_eq!(s, "Variable 'x' not found in service 'foo'"),
        other => panic!("unexpected {:?}", other),
    }
}

#[test]
fn dependency_analysis_is_transitive() {
    let decls = vec![
        Decl::VarDecl { name: "x".to_string(), val: num(1) },
        Decl::VarDecl { name: "y".to_string(), val: num(2) },
        Decl::DefDecl { name: "f".to_string(), val: bin(BinOp::Add, var("x"), num(1)), is_pub: true },
        Decl::DefDecl { name: "g".to_string(), val: bin(BinOp::Mul, var("f"), var("y")), is_pub: false },
    ];
    let dep = calc_dep_srv(&decls);
    assert_eq!(dep.topo_order, vec!["f".to_string(), "g".to_string()]);
    assert_eq!(dep.dep_vars.len(), 2);
    assert_eq!(dep.dep_vars[0].0, "f");
    assert_eq!(dep.dep_vars[0].1, vec!["x".to_string()]);
    let mut g_deps = dep.dep_vars[1].1.clone();
    g_deps.sort();
    assert_eq!(g_deps, vec!["f".to_string(), "x".to_string(), "y".to_string()]);
}

#[test]
fn statements_run_against_the_service() {
    let mut m = chain_service();
    let assign = ActionStmt::Assign { var: "x".to_string(), expr: num(3) };
    m.execute_action_stmt(&assign, &[], "foo").unwrap();
    assert_eq!(m.lookup("g", "foo").unwrap(), Value::Number { val: 8 });
    let ok = ActionStmt::Assert(bin(BinOp::Eq, var("f"), num(4)));
    assert!(m.execute_action_stmt(&ok, &[], "foo").is_ok());
    let fails = ActionStmt::Assert(bin(BinOp::Eq, var("f"), num(5)));
    match m.execute_action_stmt(&fails, &[], "foo") {
        Err(EvalError::TypeError(s)) => assert_eq!(s, "Assertion failed"),
        other => panic!("unexpected {:?}", other),
    }
    match m.execute_action_stmt(&ActionStmt::Assert(num(1)), &[], "foo") {
        Err(EvalError::TypeError(s)) => assert_eq!(s, "assert expects a boolean"),
        other => panic!("unexpected {:?}", other),
    }
    match m.execute_action_stmt(&ActionStmt::Do(num(1)), &[], "foo") {
        Err(EvalError::TypeError(s)) => assert_eq!(s, "do expects an action"),
        other => panic!("unexpected {:?}", other),
    }
    let let_stmt = ActionStmt::Let { name: "t".to_string(), expr: var("g") };
    assert!(m.execute_action_stmt(&let_stmt, &[], "foo").is_ok());
    let insert = ActionStmt::Insert { table: "t".to_string(), row: num(1) };
    assert!(matches!(m.execute_action_stmt(&insert, &[], "foo"), Err(EvalError::NotImplemented)));
}

#[test]
fn actions_run_in_their_own_service() {
    let mut m = chain_service();
    // An action made in service foo, run from another service.
    let action = {
        let ctx = EvalContext { manager: &m, service_name: "foo" };
        eval(&Expr::Action(vec![ActionStmt::Assign { var: "x".to_string(), expr: var("n") }]), &[("n".to_string(), Value::Number { val: 10 })], &ctx)
            .unwrap()
    };
    let stmt = ActionStmt::Do(Expr::Literal { val: action });
    execute(&stmt, &[], &mut m, "elsewhere").unwrap();
    assert_eq!(m.lookup("x", "foo").unwrap(), Value::Number { val: 10 });
    assert_eq!(m.lookup("g", "foo").unwrap(), Value::Number { val: 22 });
}

#[test]
fn a_test_stops_at_its_first_failure() {
    let mut m = chain_service();
    let stmts = vec![
        ActionStmt::Assign { var: "x".to_string(), expr: num(2) },
        ActionStmt::Assert(bin(BinOp::Eq, var("g"), num(6))),
        ActionStmt::Assert(bin(BinOp::Eq, var("g"), num(0))),
        ActionStmt::Assign { var: "x".to_string(), expr: num(100) },
    ];
    match m.run_test("foo", &stmts) {
        Err(EvalError::TypeError(s)) => assert_eq!(s, "Assertion failed"),
        other => panic!("unexpected {:?}", other),
    }
    assert_eq!(m.lookup("x", "foo").unwrap(), Value::Number { val: 2 });
    assert!(m.run_test("foo", &stmts[..2]).is_ok());
}

#[test]
fn error_messages() {
    assert_eq!(EvalError::TypeError("t".to_string()).to_string(), "Type error: t");
    assert_eq!(EvalError::NetworkError("n".to_string()).to_string(), "Network error: n");
    assert_eq!(EvalError::LookupError("l".to_string()).to_string(), "Lookup error: l");
    assert_eq!(EvalError::NotImplemented.to_string(), "Not yet implemented");
}

#[test]
fn copies_are_equal() {
    let f = Value::Closure {
        params: vec!["x".to_string()],
        body: Box::new(bin(BinOp::Add, var("x"), num(1))),
        env: vec![("a".to_string(), Value::Bool { val: true })],
    };
    assert_eq!(f.duplicate(), f);
    let e = Expr::Call { func: Box::new(var("f")), args: vec![num(1), Expr::Action(vec![ActionStmt::Do(var("z"))])] };
    assert_eq!(e.duplicate(), e);
}

#[test]
fn more_fuel_gives_the_same_outcome() {
    let m = Manager::new();
    let e = bin(BinOp::Add, bin(BinOp::Add, num(1), num(2)), num(3));
    let svc = String::new();
    assert!(eval_fuel(&e, &[], &[], &m, &svc, 2).is_none());
    let small = eval_fuel(&e, &[], &[], &m, &svc, 3).unwrap().unwrap();
    let large = eval_fuel(&e, &[], &[], &m, &svc, 1000).unwrap().unwrap();
    assert_eq!(small, Value::Number { val: 6 });
    assert_eq!(small, large);
}

#[test]
fn arithmetic_overflow_has_no_outcome() {
    let m = Manager::new();
    let svc = String::new();
    let e = bin(BinOp::Add, num(i64::MAX), num(1));
    assert!(eval_fuel(&e, &[], &[], &m, &svc, 10).is_none());
    let d = bin(BinOp::Div, num(1), num(0));
    assert!(eval_fuel(&d, &[], &[], &m, &svc, 10).is_none());
}

#[test]
fn remote_members_are_asked_for_then_answered() {
    let mut m = Manager::new();
    m.remote_services.push(("far".to_string(), "/ip4/127.0.0.1/tcp/1/far".to_string()));
    let e = bin(BinOp::Add, Expr::MemberAccess { service: "far".to_string(), member: "x".to_string() }, num(1));
    match eval_in(&m, "", &e) {
        Err(EvalError::RemoteLookup { service, member }) => {
            assert_eq!(service, "far");
            assert_eq!(member, "x");
        }
        other => panic!("unexpected {:?}", other),
    }
    m.record_remote_answer("far".to_string(), "x".to_string(), Value::Number { val: 41 });
    assert_eq!(eval_in(&m, "", &e).unwrap(), Value::Number { val: 42 });
    assert_eq!(
        EvalError::RemoteLookup { service: "far".to_string(), member: "x".to_string() }.to_string(),
        "Remote lookup pending: far.x"
    );
}

#[test]
fn remote_actions_go_to_the_outbox() {
    let mut m = chain_service();
    m.remote_services.push(("far".to_string(), "/ip4/127.0.0.1/tcp/1/far".to_string()));
    let action = Value::ActionClosure {
        stmts: vec![ActionStmt::Assign { var: "x".to_string(), expr: num(3) }],
        env: vec![("k".to_string(), Value::Number { val: 2 })],
        service_name: "far".to_string(),
    };
    let stmt = ActionStmt::Do(Expr::Literal { val: action });
    execute(&stmt, &[], &mut m, "foo").unwrap();
    assert_eq!(m.outbox.len(), 1);
    assert_eq!(m.outbox[0].service, "far");
    assert_eq!(m.outbox[0].stmts.len(), 1);
    assert_eq!(m.outbox[0].env, vec![("k".to_string(), Value::Number { val: 2 })]);
    assert_eq!(m.lookup("x", "foo").unwrap(), Value::Number { val: 1 });
    // Run through the manager, the same action runs locally in its service,
    // which does not exist here.
    match m.execute_action_stmt(&stmt, &[], "foo") {
        Err(EvalError::LookupError(s)) => assert_eq!(s, "Service 'far' not found"),
        other => panic!("unexpected {:?}", other),
    }
}

#[test]
fn function_values_capture_service_variables() {
    let mut m = Manager::new();
    let decls = vec![
        Decl::VarDecl { name: "x".to_string(), val: num(1) },
        Decl::DefDecl {
            name: "g".to_string(),
            val: Expr::Func { params: vec!["y".to_string()], body: Box::new(bin(BinOp::Add, var("x"), var("y"))) },
            is_pub: false,
        },
    ];
    m.create_service("foo".to_string(), decls).unwrap();
    match m.lookup("g", "foo").unwrap() {
        Value::Closure { env, .. } => assert_eq!(env, vec![("x".to_string(), Value::Number { val: 1 })]),
        other => panic!("expected a function, got {:?}", other),
    }
}


#[test]
fn execute_and_execute_action_stmt_agree() {
    let mut a = chain_service();
    let mut b = chain_service();
    let stmt = ActionStmt::Assign { var: "x".to_string(), expr: bin(BinOp::Add, var("x"), num(4)) };
    let ra = execute(&stmt, &[], &mut a, "foo");
    let rb = b.execute_action_stmt(&stmt, &[], "foo");
    assert!(ra.is_ok() && rb.is_ok());
    assert_eq!(a.lookup("g", "foo").unwrap(), Value::Number { val: 12 });
    assert_eq!(b.lookup("g", "foo").unwrap(), Value::Number { val: 12 });
}

#[test]
fn assignment_changes_nothing_else() {
    let mut m = chain_service();
    m.create_service("bar".to_string(), vec![Decl::VarDecl { name: "x".to_string(), val: num(50) }]).unwrap();
    let decls = vec![
        Decl::VarDecl { name: "y".to_string(), val: num(8) },
        Decl::DefDecl { name: "h".to_string(), val: var("y"), is_pub: false },
    ];
    m.create_service("baz".to_string(), decls).unwrap();
    m.assign("foo", "x", Value::Number { val: 3 }).unwrap();
    assert_eq!(m.lookup("x", "bar").unwrap(), Value::Number { val: 50 });
    assert_eq!(m.lookup("h", "baz").unwrap(), Value::Number { val: 8 });
    m.assign("baz", "y", Value::Number { val: 9 }).unwrap();
    assert_eq!(m.lookup("h", "baz").unwrap(), Value::Number { val: 9 });
    assert_eq!(m.lookup("g", "foo").unwrap(), Value::Number { val: 8 });
}

#[test]
fn actions_read_service_variables_when_they_run() {
    let mut m = Manager::new();
    let decls = vec![
        Decl::VarDecl { name: "x".to_string(), val: num(1) },
        Decl::VarDecl { name: "y".to_string(), val: num(0) },
        Decl::VarDecl {
            name: "a".to_string(),
            val: Expr::Action(vec![ActionStmt::Assign { var: "y".to_string(), expr: var("x") }]),
        },
    ];
    m.create_service("foo".to_string(), decls).unwrap();
    match m.lookup("a", "foo").unwrap() {
        Value::ActionClosure { env, .. } => assert!(env.is_empty()),
        other => panic!("expected an action, got {:?}", other),
    }
    let stmts = vec![
        ActionStmt::Assign { var: "x".to_string(), expr: num(5) },
        ActionStmt::Do(var("a")),
    ];
    m.run_test("foo", &stmts).unwrap();
    assert_eq!(m.lookup("y", "foo").unwrap(), Value::Number { val: 5 });
}

#[test]
fn functions_keep_the_service_variables_they_captured() {
    let mut m = Manager::new();
    let decls = vec![
        Decl::VarDecl { name: "y".to_string(), val: num(2) },
        Decl::VarDecl {
            name: "f".to_string(),
            val: Expr::Func { params: vec!["x".to_string()], body: Box::new(bin(BinOp::Add, var("x"), var("y"))) },
        },
        Decl::VarDecl {
            name: "z".to_string(),
            val: Expr::Call { func: Box::new(var("f")), args: vec![num(1)] },
        },
    ];
    m.create_service("foo".to_string(), decls).unwrap();
    assert_eq!(m.lookup("z", "foo").unwrap(), Value::Number { val: 3 });
    m.assign("foo", "y", Value::Number { val: 10 }).unwrap();
    let call = Expr::Call { func: Box::new(var("f")), args: vec![num(1)] };
    assert_eq!(eval_in(&m, "foo", &call).unwrap(), Value::Number { val: 3 });
}

#[test]
fn a_cached_definition_can_lag_its_fresh_value() {
    // f reads foo.x only through the function h, by member access, so f does
    // not depend on x and is not recomputed when x changes; a lookup
    // recomputes it afresh.
    let mut m = Manager::new();
    let decls = vec![
        Decl::VarDecl { name: "x".to_string(), val: num(1) },
        Decl::VarDecl { name: "flag".to_string(), val: boolean(false) },
        Decl::VarDecl {
            name: "h".to_string(),
            val: Expr::Func {
                params: vec![],
                body: Box::new(Expr::MemberAccess { service: "foo".to_string(), member: "x".to_string() }),
            },
        },
        Decl::DefDecl {
            name: "f".to_string(),
            val: Expr::If {
                cond: Box::new(var("flag")),
                expr1: Box::new(Expr::Call { func: Box::new(var("h")), args: vec![] }),
                expr2: Box::new(num(0)),
            },
            is_pub: false,
        },
    ];
    m.create_service("foo".to_string(), decls).unwrap();
    m.assign("foo", "flag", Value::Bool { val: true }).unwrap();
    m.assign("foo", "x", Value::Number { val: 5 }).unwrap();
    assert_eq!(m.lookup("f", "foo").unwrap(), Value::Number { val: 5 });
    let cached_f = m.services[0].vars.iter().find(|(n, _)| n == "f").unwrap();
    assert_eq!(cached_f.1, Value::Number { val: 1 });
}
