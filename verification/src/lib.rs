//! A verified core for a small statically-typed expression language with
//! user-defined record types, functions, variables, field access, file
//! inclusion, and interpreter directives.
//!
//! The crate models the execution context with its lexical scope map, the
//! typed value / instance model, and the instruction evaluator. The
//! behaviour of every instruction is given by a mathematical evaluation
//! function, and the executable evaluator is proved to return exactly what
//! that function says.

pub mod args;
pub mod construct;
pub mod context;
pub mod error;
pub mod eval;
pub mod instance;
pub mod instruction;
pub mod parser;
pub mod scope_map;
pub mod text;
pub mod typechecker;
pub mod types;

pub use args::Args;
pub use construct::{Construct, Parser};
pub use context::{Context, ErrorHandler};
pub use error::{ErrKind, Error};
pub use instance::{JkBool, JkChar, JkInt, JkString, ObjectInstance};
pub use instruction::{
    Block, Constant, FieldAccess, FunctionCall, FunctionDec, Incl, InstrKind, Instruction, JkInst,
    JkInstKind, Return, TypeInstantiation, Var, VarAssign, VarOrEmptyType,
};
pub use parser::Token;
pub use scope_map::{Scope, ScopeMap};
pub use typechecker::{CheckedType, SymbolKind};
pub use types::{DecArg, TypeDec, TypeId};
