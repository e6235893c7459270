use meerkat_lib::{eval, ActionStmt, BinOp, EvalContext, Expr, Manager, Value};

#[test]
fn test_literal() {
    let manager = Manager::default();
    let ctx = EvalContext { manager: &manager, service_name: "" };
    let expr = Expr::Literal { val: Value::Number { val: 42 } };
    let result = eval(&expr, &[], &ctx).unwrap();
    assert_eq!(result, Value::Number { val: 42 });
}

#[test]
fn test_binop_add() {
    let manager = Manager::default();
    let ctx = EvalContext { manager: &manager, service_name: "" };
    let expr = Expr::Binop {
        op: BinOp::Add,
        expr1: Box::new(Expr::Literal { val: Value::Number { val: 2 } }),
        expr2: Box::new(Expr::Literal { val: Value::Number { val: 3 } }),
    };
    let result = eval(&expr, &[], &ctx).unwrap();
    assert_eq!(result, Value::Number { val: 5 });
}

#[test]
fn test_func_and_call() {
    let manager = Manager::default();
    let ctx = EvalContext { manager: &manager, service_name: "" };
    let func_expr = Expr::Func {
        params: vec!["x".to_string()],
        body: Box::new(Expr::Binop {
            op: BinOp::Add,
            expr1: Box::new(Expr::Variable { ident: "x".to_string() }),
            expr2: Box::new(Expr::Literal { val: Value::Number { val: 10 } }),
        }),
    };
    let call_expr = Expr::Call {
        func: Box::new(func_expr),
        args: vec![Expr::Literal { val: Value::Number { val: 5 } }],
    };
    let result = eval(&call_expr, &[], &ctx).unwrap();
    assert_eq!(result, Value::Number { val: 15 });
}

#[test]
fn test_action_creation() {
    let manager = Manager::default();
    let ctx = EvalContext { manager: &manager, service_name: "" };
    let action_expr = Expr::Action(vec![
        ActionStmt::Assign {
            var: "x".to_string(),
            expr: Expr::Literal { val: Value::Number { val: 5 } },
        },
    ]);
    let result = eval(&action_expr, &[], &ctx).unwrap();
    match result {
        Value::ActionClosure { stmts, .. } => assert_eq!(stmts.len(), 1),
        _ => panic!("Expected ActionClosure"),
    }
}

#[test]
fn test_closure_captures_only_free_vars() {
    let manager = Manager::default();
    let ctx = EvalContext { manager: &manager, service_name: "" };
    let env = vec![
        ("a".to_string(), Value::Number { val: 1 }),
        ("b".to_string(), Value::Number { val: 2 }),
        ("c".to_string(), Value::Number { val: 3 }),
    ];
    let func_expr = Expr::Func {
        params: vec!["x".to_string()],
        body: Box::new(Expr::Binop {
            op: BinOp::Add,
            expr1: Box::new(Expr::Variable { ident: "x".to_string() }),
            expr2: Box::new(Expr::Variable { ident: "a".to_string() }),
        }),
    };
    let result = eval(&func_expr, &env, &ctx).unwrap();
    match result {
        Value::Closure { params, body: _, env: captured_env } => {
            assert_eq!(params.len(), 1);
            assert_eq!(captured_env.len(), 1);
            assert_eq!(captured_env[0].0, "a");
            assert_eq!(captured_env[0].1, Value::Number { val: 1 });
        }
        _ => panic!("Expected Closure"),
    }
}
