//! The abstract syntax of Meerkat programs and the values they compute,
//! together with their mathematical models (the `...V` types) and
//! copy operations that are proved to preserve the model.
use vstd::prelude::*;

verus! {

/// Binary operators.
#[derive(Debug, Clone, Copy, PartialEq, Eq, Structural)]
pub enum BinOp {
    Add,
    Sub,
    Mul,
    Div,
    Eq,
    Lt,
    Gt,
    And,
    Or,
}

/// Unary operators.
#[derive(Debug, Clone, Copy, PartialEq, Eq, Structural)]
pub enum UnOp {
    Neg,
    Not,
}

/// Runtime values.
#[derive(Debug, PartialEq)]
pub enum Value {
    Number { val: i64 },
    Bool { val: bool },
    /// A function value with the bindings it captured.
    Closure { params: Vec<String>, body: Box<Expr>, env: Vec<(String, Value)> },
    /// An action value: statements to run later in the named service.
    ActionClosure { stmts: Vec<ActionStmt>, env: Vec<(String, Value)>, service_name: String },
}

/// Expressions.
#[derive(Debug, PartialEq)]
pub enum Expr {
    Literal { val: Value },
    Variable { ident: String },
    Binop { op: BinOp, expr1: Box<Expr>, expr2: Box<Expr> },
    Unop { op: UnOp, expr: Box<Expr> },
    If { cond: Box<Expr>, expr1: Box<Expr>, expr2: Box<Expr> },
    Func { params: Vec<String>, body: Box<Expr> },
    Call { func: Box<Expr>, args: Vec<Expr> },
    Action(Vec<ActionStmt>),
    MemberAccess { service: String, member: String },
}

/// Statements of an action.
#[derive(Debug, PartialEq)]
pub enum ActionStmt {
    Assign { var: String, expr: Expr },
    Do(Expr),
    Assert(Expr),
    Let { name: String, expr: Expr },
    Insert { table: String, row: Expr },
}

/// Declarations of a service.
#[derive(Debug, PartialEq)]
pub enum Decl {
    VarDecl { name: String, val: Expr },
    DefDecl { name: String, val: Expr, is_pub: bool },
    TableDecl { name: String },
}

// ---------------------------------------------------------------------------
// Models
// ---------------------------------------------------------------------------

/// A binding environment, as a sequence of (name, value) pairs; later pairs shadow earlier ones.
pub type EnvV = Seq<(Seq<char>, ValueV)>;

pub enum ValueV {
    Number { val: i64 },
    Bool { val: bool },
    Closure { params: Seq<Seq<char>>, body: Box<ExprV>, env: EnvV },
    ActionClosure { stmts: Seq<StmtV>, env: EnvV, service_name: Seq<char> },
}

pub enum ExprV {
    Literal { val: ValueV },
    Variable { ident: Seq<char> },
    Binop { op: BinOp, expr1: Box<ExprV>, expr2: Box<ExprV> },
    Unop { op: UnOp, expr: Box<ExprV> },
    If { cond: Box<ExprV>, expr1: Box<ExprV>, expr2: Box<ExprV> },
    Func { params: Seq<Seq<char>>, body: Box<ExprV> },
    Call { func: Box<ExprV>, args: Seq<ExprV> },
    Action { stmts: Seq<StmtV> },
    MemberAccess { service: Seq<char>, member: Seq<char> },
}

pub enum StmtV {
    Assign { var: Seq<char>, expr: ExprV },
    Do { expr: ExprV },
    Assert { expr: ExprV },
    Let { name: Seq<char>, expr: ExprV },
    Insert { table: Seq<char>, row: ExprV },
}

pub enum DeclV {
    VarDecl { name: Seq<char>, val: ExprV },
    DefDecl { name: Seq<char>, val: ExprV, is_pub: bool },
    TableDecl { name: Seq<char> },
}

pub open spec fn names_view(s: Seq<String>) -> Seq<Seq<char>> {
    Seq::new(s.len(), |i: int| s[i]@)
}

pub open spec fn value_view(v: Value) -> ValueV
    decreases v,
{
    match v {
        Value::Number { val } => ValueV::Number { val },
        Value::Bool { val } => ValueV::Bool { val },
        Value::Closure { params, body, env } => ValueV::Closure {
            params: names_view(params@),
            body: Box::new(expr_view(*body)),
            env: Seq::new(
                env@.len(),
                |i: int|
                    if 0 <= i < env@.len() {
                        (env@[i].0@, value_view(env@[i].1))
                    } else {
                        (Seq::empty(), ValueV::Number { val: 0 })
                    },
            ),
        },
        Value::ActionClosure { stmts, env, service_name } => ValueV::ActionClosure {
            stmts: Seq::new(
                stmts@.len(),
                |i: int|
                    if 0 <= i < stmts@.len() {
                        stmt_view(stmts@[i])
                    } else {
                        StmtV::Do { expr: ExprV::Variable { ident: Seq::empty() } }
                    },
            ),
            env: Seq::new(
                env@.len(),
                |i: int|
                    if 0 <= i < env@.len() {
                        (env@[i].0@, value_view(env@[i].1))
                    } else {
                        (Seq::empty(), ValueV::Number { val: 0 })
                    },
            ),
            service_name: service_name@,
        },
    }
}

pub open spec fn expr_view(e: Expr) -> ExprV
    decreases e,
{
    match e {
        Expr::Literal { val } => ExprV::Literal { val: value_view(val) },
        Expr::Variable { ident } => ExprV::Variable { ident: ident@ },
        Expr::Binop { op, expr1, expr2 } => ExprV::Binop {
            op,
            expr1: Box::new(expr_view(*expr1)),
            expr2: Box::new(expr_view(*expr2)),
        },
        Expr::Unop { op, expr } => ExprV::Unop { op, expr: Box::new(expr_view(*expr)) },
        Expr::If { cond, expr1, expr2 } => ExprV::If {
            cond: Box::new(expr_view(*cond)),
            expr1: Box::new(expr_view(*expr1)),
            expr2: Box::new(expr_view(*expr2)),
        },
        Expr::Func { params, body } => ExprV::Func {
            params: names_view(params@),
            body: Box::new(expr_view(*body)),
        },
        Expr::Call { func, args } => ExprV::Call {
            func: Box::new(expr_view(*func)),
            args: Seq::new(
                args@.len(),
                |i: int|
                    if 0 <= i < args@.len() {
                        expr_view(args@[i])
                    } else {
                        ExprV::Variable { ident: Seq::empty() }
                    },
            ),
        },
        Expr::Action(stmts) => ExprV::Action {
            stmts: Seq::new(
                stmts@.len(),
                |i: int|
                    if 0 <= i < stmts@.len() {
                        stmt_view(stmts@[i])
                    } else {
                        StmtV::Do { expr: ExprV::Variable { ident: Seq::empty() } }
                    },
            ),
        },
        Expr::MemberAccess { service, member } => ExprV::MemberAccess {
            service: service@,
            member: member@,
        },
    }
}

pub open spec fn stmt_view(s: ActionStmt) -> StmtV
    decreases s,
{
    match s {
        ActionStmt::Assign { var, expr } => StmtV::Assign { var: var@, expr: expr_view(expr) },
        ActionStmt::Do(expr) => StmtV::Do { expr: expr_view(expr) },
        ActionStmt::Assert(expr) => StmtV::Assert { expr: expr_view(expr) },
        ActionStmt::Let { name, expr } => StmtV::Let { name: name@, expr: expr_view(expr) },
        ActionStmt::Insert { table, row } => StmtV::Insert { table: table@, row: expr_view(row) },
    }
}

/// The model of an environment.
pub open spec fn env_view(env: Seq<(String, Value)>) -> EnvV {
    Seq::new(env.len(), |i: int| (env[i].0@, value_view(env[i].1)))
}

pub open spec fn exprs_view(s: Seq<Expr>) -> Seq<ExprV> {
    Seq::new(s.len(), |i: int| expr_view(s[i]))
}

pub open spec fn stmts_view(s: Seq<ActionStmt>) -> Seq<StmtV> {
    Seq::new(s.len(), |i: int| stmt_view(s[i]))
}

pub open spec fn decl_view(d: Decl) -> DeclV {
    match d {
        Decl::VarDecl { name, val } => DeclV::VarDecl { name: name@, val: expr_view(val) },
        Decl::DefDecl { name, val, is_pub } => DeclV::DefDecl { name: name@, val: expr_view(val), is_pub },
        Decl::TableDecl { name } => DeclV::TableDecl { name: name@ },
    }
}

pub open spec fn decls_view(s: Seq<Decl>) -> Seq<DeclV> {
    Seq::new(s.len(), |i: int| decl_view(s[i]))
}

impl View for Value {
    type V = ValueV;

    open spec fn view(&self) -> ValueV {
        value_view(*self)
    }
}

impl View for Expr {
    type V = ExprV;

    open spec fn view(&self) -> ExprV {
        expr_view(*self)
    }
}

impl View for ActionStmt {
    type V = StmtV;

    open spec fn view(&self) -> StmtV {
        stmt_view(*self)
    }
}

impl View for Decl {
    type V = DeclV;

    open spec fn view(&self) -> DeclV {
        decl_view(*self)
    }
}

/// The closure's bindings, as the model of a value's environment field.
pub proof fn lemma_closure_env_view(params: Vec<String>, body: Box<Expr>, env: Vec<(String, Value)>)
    ensures
        value_view(Value::Closure { params, body, env }) == (ValueV::Closure {
            params: names_view(params@),
            body: Box::new(expr_view(*body)),
            env: env_view(env@),
        }),
{
    let v = Value::Closure { params, body, env };
    assert(value_view(v)->Closure_env =~= env_view(env@));
}

/// The same, for action closures.
pub proof fn lemma_action_env_view(stmts: Vec<ActionStmt>, env: Vec<(String, Value)>, service_name: String)
    ensures
        value_view(Value::ActionClosure { stmts, env, service_name }) == (ValueV::ActionClosure {
            stmts: stmts_view(stmts@),
            env: env_view(env@),
            service_name: service_name@,
        }),
{
    let v = Value::ActionClosure { stmts, env, service_name };
    assert(value_view(v)->ActionClosure_env =~= env_view(env@));
    assert(value_view(v)->ActionClosure_stmts =~= stmts_view(stmts@));
}

// ---------------------------------------------------------------------------
// Copies
// ---------------------------------------------------------------------------

/// Copies a list of names.
pub fn copy_names(v: &Vec<String>) -> (r: Vec<String>)
    ensures
        r@ == v@,
{
    let mut r: Vec<String> = Vec::new();
    let mut i: usize = 0;
    while i < v.len()
        invariant
            i <= v.len(),
            r@ == v@.take(i as int),
        decreases v.len() - i,
    {
        r.push(v[i].clone());
        i = i + 1;
        assert(r@ =~= v@.take(i as int));
    }
    assert(v@.take(v.len() as int) =~= v@);
    r
}

/// Copies an environment.
#[verifier::loop_isolation(false)]
pub fn copy_env(env: &Vec<(String, Value)>) -> (r: Vec<(String, Value)>)
    ensures
        env_view(r@) == env_view(env@),
    decreases env,
{
    let mut r: Vec<(String, Value)> = Vec::new();
    let mut i: usize = 0;
    while i < env.len()
        invariant
            i <= env.len(),
            r@.len() == i,
            forall|j: int| 0 <= j < i ==> (#[trigger] r@[j]).0 == env@[j].0 && value_view(r@[j].1) == value_view(env@[j].1),
        decreases env.len() - i,
    {
        proof {
            assert(decreases_to!(*env => env@));
            assert(decreases_to!(env@ => env@[i as int]));
            assert(decreases_to!(env@[i as int] => env@[i as int].1));
        }
        let n = env[i].0.clone();
        let v = env[i].1.duplicate();
        r.push((n, v));
        i = i + 1;
    }
    assert(env_view(r@) =~= env_view(env@));
    r
}

/// Copies a list of expressions.
#[verifier::loop_isolation(false)]
pub fn copy_exprs(args: &Vec<Expr>) -> (r: Vec<Expr>)
    ensures
        exprs_view(r@) == exprs_view(args@),
    decreases args,
{
    let mut r: Vec<Expr> = Vec::new();
    let mut i: usize = 0;
    while i < args.len()
        invariant
            i <= args.len(),
            r@.len() == i,
            forall|j: int| 0 <= j < i ==> expr_view(#[trigger] r@[j]) == expr_view(args@[j]),
        decreases args.len() - i,
    {
        proof {
            assert(decreases_to!(*args => args@));
            assert(decreases_to!(args@ => args@[i as int]));
        }
        let e = args[i].duplicate();
        r.push(e);
        i = i + 1;
    }
    assert(exprs_view(r@) =~= exprs_view(args@));
    r
}

/// Copies a list of statements.
#[verifier::loop_isolation(false)]
pub fn copy_stmts(stmts: &Vec<ActionStmt>) -> (r: Vec<ActionStmt>)
    ensures
        stmts_view(r@) == stmts_view(stmts@),
    decreases stmts,
{
    let mut r: Vec<ActionStmt> = Vec::new();
    let mut i: usize = 0;
    while i < stmts.len()
        invariant
            i <= stmts.len(),
            r@.len() == i,
            forall|j: int| 0 <= j < i ==> stmt_view(#[trigger] r@[j]) == stmt_view(stmts@[j]),
        decreases stmts.len() - i,
    {
        proof {
            assert(decreases_to!(*stmts => stmts@));
            assert(decreases_to!(stmts@ => stmts@[i as int]));
        }
        let e = stmts[i].duplicate();
        r.push(e);
        i = i + 1;
    }
    assert(stmts_view(r@) =~= stmts_view(stmts@));
    r
}

impl Value {
    /// A copy of the value, with the same model.
    pub fn duplicate(&self) -> (r: Value)
        ensures
            r@ == self@,
        decreases self,
    {
        match self {
            Value::Number { val } => Value::Number { val: *val },
            Value::Bool { val } => Value::Bool { val: *val },
            Value::Closure { params, body, env } => {
                let p = copy_names(params);
                let b = (**body).duplicate();
                let e = copy_env(env);
                proof {
                    lemma_closure_env_view(*params, *body, *env);
                    lemma_closure_env_view(p, Box::new(b), e);
                }
                Value::Closure { params: p, body: Box::new(b), env: e }
            },
            Value::ActionClosure { stmts, env, service_name } => {
                let s = copy_stmts(stmts);
                let e = copy_env(env);
                let n = service_name.clone();
                proof {
                    lemma_action_env_view(*stmts, *env, *service_name);
                    lemma_action_env_view(s, e, n);
                }
                Value::ActionClosure { stmts: s, env: e, service_name: n }
            },
        }
    }
}

impl Expr {
    /// A copy of the expression, with the same model.
    pub fn duplicate(&self) -> (r: Expr)
        ensures
            r@ == self@,
        decreases self,
    {
        match self {
            Expr::Literal { val } => Expr::Literal { val: val.duplicate() },
            Expr::Variable { ident } => Expr::Variable { ident: ident.clone() },
            Expr::Binop { op, expr1, expr2 } => {
                let a = (**expr1).duplicate();
                let b = (**expr2).duplicate();
                Expr::Binop { op: *op, expr1: Box::new(a), expr2: Box::new(b) }
            },
            Expr::Unop { op, expr } => {
                let a = (**expr).duplicate();
                Expr::Unop { op: *op, expr: Box::new(a) }
            },
            Expr::If { cond, expr1, expr2 } => {
                let c = (**cond).duplicate();
                let a = (**expr1).duplicate();
                let b = (**expr2).duplicate();
                Expr::If { cond: Box::new(c), expr1: Box::new(a), expr2: Box::new(b) }
            },
            Expr::Func { params, body } => {
                let p = copy_names(params);
                let b = (**body).duplicate();
                Expr::Func { params: p, body: Box::new(b) }
            },
            Expr::Call { func, args } => {
                let f = (**func).duplicate();
                let a = copy_exprs(args);
                let r = Expr::Call { func: Box::new(f), args: a };
                assert(expr_view(r)->Call_args =~= exprs_view(a@));
                assert(expr_view(*self)->Call_args =~= exprs_view(args@));
                r
            },
            Expr::Action(stmts) => {
                let s = copy_stmts(stmts);
                let r = Expr::Action(s);
                assert(expr_view(r)->Action_stmts =~= stmts_view(s@));
                assert(expr_view(*self)->Action_stmts =~= stmts_view(stmts@));
                r
            },
            Expr::MemberAccess { service, member } => Expr::MemberAccess {
                service: service.clone(),
                member: member.clone(),
            },
        }
    }
}

impl ActionStmt {
    /// A copy of the statement, with the same model.
    pub fn duplicate(&self) -> (r: ActionStmt)
        ensures
            r@ == self@,
        decreases self,
    {
        match self {
            ActionStmt::Assign { var, expr } => ActionStmt::Assign { var: var.clone(), expr: expr.duplicate() },
            ActionStmt::Do(expr) => ActionStmt::Do(expr.duplicate()),
            ActionStmt::Assert(expr) => ActionStmt::Assert(expr.duplicate()),
            ActionStmt::Let { name, expr } => ActionStmt::Let { name: name.clone(), expr: expr.duplicate() },
            ActionStmt::Insert { table, row } => ActionStmt::Insert { table: table.clone(), row: row.duplicate() },
        }
    }
}

impl Decl {
    /// A copy of the declaration, with the same model.
    pub fn duplicate(&self) -> (r: Decl)
        ensures
            r@ == self@,
    {
        match self {
            Decl::VarDecl { name, val } => Decl::VarDecl { name: name.clone(), val: val.duplicate() },
            Decl::DefDecl { name, val, is_pub } => Decl::DefDecl { name: name.clone(), val: val.duplicate(), is_pub: *is_pub },
            Decl::TableDecl { name } => Decl::TableDecl { name: name.clone() },
        }
    }
}

} // verus!
