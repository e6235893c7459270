//! Meerkat: a small reactive language of services. A service holds
//! variables and definitions; a definition is an expression over the
//! service's names and is recomputed when a variable it depends on is
//! assigned. Actions are statements run later, in the service where they
//! were made.
//!
//! Every evaluator and state change here is verified against a big-step
//! semantics (`semantics`), stated over mathematical models of the syntax,
//! the values and the manager's state.
pub mod ast;
pub mod scope;
pub mod manager;
pub mod semantics;
pub mod evaluator;
pub mod dependency;
pub mod service;
pub mod executor;
pub mod laws;
pub mod remote;

pub use ast::{ActionStmt, BinOp, Decl, Expr, UnOp, Value};
pub use evaluator::{eval, EvalContext, EvalError};
pub use executor::execute;
pub use manager::{DependAnalysis, Manager, Service};
