use meerkat_lib::{BinOp, Decl, Expr, Manager, Value};

#[test]
fn test_create_service_with_var() {
    let mut manager = Manager::new();
    let decls = vec![
        Decl::VarDecl {
            name: "x".to_string(),
            val: Expr::Literal { val: Value::Number { val: 1 } },
        },
    ];
    manager.create_service("foo".to_string(), decls).unwrap();
    let result = manager.lookup("x", "foo").unwrap();
    assert_eq!(result, Value::Number { val: 1 });
}

#[test]
fn test_create_service_with_def() {
    let mut manager = Manager::new();
    let decls = vec![
        Decl::VarDecl {
            name: "x".to_string(),
            val: Expr::Literal { val: Value::Number { val: 2 } },
        },
        Decl::DefDecl {
            name: "f".to_string(),
            val: Expr::Binop {
                op: BinOp::Add,
                expr1: Box::new(Expr::Variable { ident: "x".to_string() }),
                expr2: Box::new(Expr::Literal { val: Value::Number { val: 3 } }),
            },
            is_pub: true,
        },
    ];
    manager.create_service("foo".to_string(), decls).unwrap();
    let result = manager.lookup("f", "foo").unwrap();
    assert_eq!(result, Value::Number { val: 5 });
}

#[test]
fn test_lookup_missing_var_returns_error() {
    let mut manager = Manager::new();
    manager.create_service("foo".to_string(), vec![]).unwrap();
    let result = manager.lookup("nonexistent", "foo");
    assert!(result.is_err());
}

#[test]
fn test_def_updates_after_var_change() {
    let mut manager = Manager::new();
    // service foo { var x = 1; def f = x + 10; }
    let decls = vec![
        Decl::VarDecl {
            name: "x".to_string(),
            val: Expr::Literal { val: Value::Number { val: 1 } },
        },
        Decl::DefDecl {
            name: "f".to_string(),
            val: Expr::Binop {
                op: BinOp::Add,
                expr1: Box::new(Expr::Variable { ident: "x".to_string() }),
                expr2: Box::new(Expr::Literal { val: Value::Number { val: 10 } }),
            },
            is_pub: true,
        },
    ];
    manager.create_service("foo".to_string(), decls).unwrap();

    // f should be 11 initially
    let result = manager.lookup("f", "foo").unwrap();
    assert_eq!(result, Value::Number { val: 11 });

    // update x to 5, f should become 15
    manager.assign("foo", "x", Value::Number { val: 5 }).unwrap();
    let result = manager.lookup("f", "foo").unwrap();
    assert_eq!(result, Value::Number { val: 15 });
}
