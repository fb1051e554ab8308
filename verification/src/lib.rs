//! A small prefix-notation language with variables, loops, conditionals and
//! functions.  Source text is lexed into statements, parsed into an abstract
//! syntax tree, and then either evaluated directly by a tree-walking
//! interpreter or lowered into a control-flow-graph intermediate
//! representation for native compilation.
//!
//! Every number in the language is an IEEE-754 double.  Inside the verified
//! library a number is carried as its 64-bit encoding, and the floating-point
//! operations themselves are performed by `rustc_apfloat` behind a small set
//! of trusted wrappers in [`num`].

pub mod aot;
pub mod ast;
pub mod codegen;
pub mod driver;
pub mod interp;
pub mod lex;
pub mod num;
pub mod tables;
pub mod parse;

pub use ast::BinaryExpr;
pub use ast::BindExpr;
pub use ast::FnCallExpr;
pub use ast::FnExpr;
pub use ast::IfExpr;
pub use ast::MutateExpr;
pub use ast::Node;
pub use ast::Op;
pub use ast::PrintStdoutExpr;
pub use ast::ReturnExpr;
pub use ast::WhileExpr;
pub use driver::CompileConfig;
pub use driver::Interpreter;
pub use driver::LangError;
pub use driver::LogExpect;
pub use lex::lex;
pub use parse::ParseError;
pub use parse::parse;
pub use interp::RuntimeError;
pub use interp::eval;
pub use tables::FnTable;
pub use tables::Scope;
pub use num::Number;
