//! The front end: compiling source text with the interpreter, and the
//! configuration shared with the native back end.

use vstd::prelude::*;

use crate::ast::Node;
use crate::ast::nodes_view;
use crate::interp::RuntimeError;
use crate::interp::StateS;
use crate::interp::err_view;
use crate::interp::eval_seq_s;
use crate::interp::state_of;
use crate::lex::split_stmts;
use crate::parse::ParseError;
use crate::parse::parse_block_s;
use crate::tables::FnTable;
use crate::tables::Scope;

verus! {

/// The step budget the interpreter front end runs with: high enough that
/// only a program that loops essentially forever exhausts it.
pub const DEFAULT_STEPS: u64 = 0xffff_ffff_ffff_ffff;

/// How a program is compiled and run.
pub struct CompileConfig {
    /// Run the generated code in-process instead of linking an executable.
    pub use_jit: bool,
    /// Dump the generated intermediate representation.
    pub show_ir: bool,
}

impl CompileConfig {
    /// A configuration from its two switches.
    pub fn from(use_jit: bool, show_ir: bool) -> (r: Self)
        ensures
            r.use_jit == use_jit,
            r.show_ir == show_ir,
    {
        CompileConfig { use_jit, show_ir }
    }
}

/// A failure anywhere in the pipeline.
#[derive(Debug, PartialEq)]
pub enum LangError {
    /// The source text did not parse.
    Parse(ParseError),
    /// The program failed while running.
    Runtime(RuntimeError),
}

/// The tree-walking interpreter, the simplest way to run a program.
pub struct Interpreter;

impl Interpreter {
    /// Evaluate an abstract syntax tree in a fresh state.  The
    /// configuration plays no role for the interpreter.
    pub fn from_ast(nodes: Vec<Node>, _config: &CompileConfig) -> (r: Result<u64, RuntimeError>)
        ensures
            ({
                let res = eval_seq_s(
                    DEFAULT_STEPS as nat,
                    nodes_view(nodes@),
                    state_of(Map::empty(), Map::empty(), Seq::empty()),
                );
                match r {
                    Ok(v) => res matches Some(Ok(p)) && p.0 == v,
                    Err(RuntimeError::OutOfSteps) => res is None,
                    Err(e) => res == Some(Err::<(u64, StateS), crate::interp::ErrS>(err_view(e))),
                }
            }),
    {
        let mut globals = Scope::new();
        let mut functions = FnTable::new();
        let mut output: Vec<u64> = Vec::new();
        crate::interp::eval(&nodes, &mut globals, &mut functions, &mut output, DEFAULT_STEPS)
    }

    /// Lex, parse and evaluate a source text in a fresh state.
    pub fn from_source(source: &str, config: &CompileConfig) -> (r: Result<u64, LangError>)
        ensures
            ({
                let stmts = split_stmts(source@);
                let parsed = parse_block_s(stmts.len() + 1, stmts, Map::empty(), Seq::empty());
                match r {
                    Ok(v) => parsed matches Some(Ok(p)) && eval_seq_s(
                        DEFAULT_STEPS as nat,
                        p.0,
                        state_of(Map::empty(), Map::empty(), Seq::empty()),
                    ) matches Some(Ok(q)) && q.0 == v,
                    Err(LangError::Parse(e)) => parsed matches Some(Err(pe)) && pe == e,
                    Err(LangError::Runtime(RuntimeError::OutOfSteps)) => parsed matches Some(
                        Ok(p),
                    ) && eval_seq_s(
                        DEFAULT_STEPS as nat,
                        p.0,
                        state_of(Map::empty(), Map::empty(), Seq::empty()),
                    ) is None,
                    Err(LangError::Runtime(e)) => parsed matches Some(Ok(p)) && eval_seq_s(
                        DEFAULT_STEPS as nat,
                        p.0,
                        state_of(Map::empty(), Map::empty(), Seq::empty()),
                    ) == Some(Err::<(u64, StateS), crate::interp::ErrS>(err_view(e))),
                }
            }),
    {
        let stmts = crate::lex::lex(source);
        let mut functions = FnTable::new();
        match crate::parse::parse(&stmts, &mut functions) {
            Err(e) => Err(LangError::Parse(e)),
            Ok(nodes) => match Self::from_ast(nodes, config) {
                Ok(v) => Ok(v),
                Err(e) => Err(LangError::Runtime(e)),
            },
        }
    }
}

/// Unwrap a value that the surrounding logic has shown to be there; the
/// message documents the expectation.
pub trait LogExpect<T> {
    /// Whether the value is there.
    spec fn has_value(&self) -> bool;

    /// The value.
    spec fn the_value(&self) -> T;

    /// The held value.
    fn log_expect(self, msg: &str) -> (r: T)
        requires
            self.has_value(),
        ensures
            r == self.the_value(),
    ;
}

impl<T> LogExpect<T> for Option<T> {
    open spec fn has_value(&self) -> bool {
        self is Some
    }

    open spec fn the_value(&self) -> T {
        self->0
    }

    fn log_expect(self, msg: &str) -> (r: T) {
        match self {
            Some(v) => v,
            None => {
                proof {
                    assert(false);
                }
                unreached()
            },
        }
    }
}

impl<T, E> LogExpect<T> for Result<T, E> {
    open spec fn has_value(&self) -> bool {
        self is Ok
    }

    open spec fn the_value(&self) -> T {
        self->Ok_0
    }

    fn log_expect(self, msg: &str) -> (r: T) {
        match self {
            Ok(v) => v,
            Err(_) => {
                proof {
                    assert(false);
                }
                unreached()
            },
        }
    }
}

} // verus!
