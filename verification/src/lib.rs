//! An embeddable engine for real-valued formulas: a source string is
//! compiled once into a compact stack-machine program, which is then
//! evaluated many times against changing variable bindings.
//!
//! Numbers are carried as the raw 64 bits of an IEEE-754 double. The
//! rounding arithmetic itself is supplied by the caller as an
//! *arithmetic unit*; everything else (scanning, parsing, rewriting,
//! lowering, decoding and the stack discipline) is stated and proved here.

pub mod arith;
pub mod ast;
pub mod bindings;
pub mod bytecode;
pub mod compiler;
pub mod correctness;
pub mod error;
pub mod laws;
pub mod lexer;
pub mod parser;
pub mod pool;
pub mod text;
pub mod token;
pub mod vm;

use crate::arith::{agrees, total, Operation, Oracle};
use crate::bytecode::Program;
use crate::compiler::compile_term;
use crate::error::{Error, ErrorKind};
use crate::lexer::Lexer;
use crate::parser::{failed, parse_text, Parser};
use crate::vm::{
    evaluate, execution_fault, gives, gives_all, run_batch, sets_of, zeros, Context, VM,
};
use vstd::prelude::*;

verus! {

/// The result `r` is what compiling the text `s` gives under the arithmetic
/// `o`: the first error of scanning or parsing, with its place; else the
/// first error of lowering, without one; else the program.
pub open spec fn compiles(r: Result<Program, Error>, s: Seq<char>, o: Oracle) -> bool {
    match parse_text(s, o) {
        Err(f) => r matches Err(e) && failed(e, s, f),
        Ok(t) => match compile_term(t, o) {
            Ok(c) => r matches Ok(p) && p@ == c,
            Err(k) => r matches Err(e) && e == Error::plain(k),
        },
    }
}

/// The compiler of source text: it scans, parses, rewrites and lowers.
pub struct Compiler;

impl Compiler {
    /// A compiler. It holds no state: each formula is compiled by itself.
    pub fn new() -> Self {
        Self
    }

    /// Compiles a formula. The text is parsed from its first token; the
    /// tree is rewritten and lowered into a fresh program. The first error
    /// of any stage is returned: a scanning or parsing error with its place
    /// in the text, a lowering error without one.
    pub fn compile<F: Fn(Operation) -> u64>(&self, input: &str, unit: &F) -> (r: Result<
        Program,
        Error,
    >)
        requires
            total(unit),
        ensures
            r matches Ok(p) ==> p@.consistent() && p@.well_formed(),
            forall|o: Oracle| #[trigger] agrees(unit, o) ==> compiles(r, input@, o),
    {
        let lexer = Lexer::new(input);
        let mut parser = match Parser::new(lexer, unit) {
            Err(e) => {
                return Err(e);
            },
            Ok(p) => p,
        };
        let ast = match parser.parse(unit) {
            Err(e) => {
                return Err(e);
            },
            Ok(e) => e,
        };
        let compiler = crate::compiler::Compiler::new();
        compiler.compile(ast, unit)
    }
}

impl Default for Compiler {
    fn default() -> Self {
        Self::new()
    }
}

impl Program {
    /// Evaluates the program against a context, on a fresh stack machine.
    pub fn eval<F: Fn(Operation) -> u64>(&self, context: &Context, unit: &F) -> (r: Result<
        u64,
        Error,
    >)
        requires
            total(unit),
            self@.well_formed(),
        ensures
            context@.len() < self@.var_names.len() ==> r == Err::<u64, Error>(
                Error::plain(
                    ErrorKind::VariableCountMismatch {
                        expected: self@.var_names.len() as usize,
                        got: context@.len() as usize,
                    },
                ),
            ),
            context@.len() >= self@.var_names.len() ==> (r matches Err(e) ==> execution_fault(
                e.kind,
            )),
            forall|o: Oracle| #[trigger]
                agrees(unit, o) ==> gives(r, evaluate(self@, context@, o)),
    {
        let mut vm = VM::new(self);
        vm.run(context, unit)
    }

    /// Evaluates the program once for each value vector, in order, on one
    /// stack machine. Each vector holds the values of the program's
    /// variables, in the order of its variable list.
    pub fn eval_batch<F: Fn(Operation) -> u64>(&self, var_sets: &[&[u64]], unit: &F) -> (r: Result<
        Vec<u64>,
        Error,
    >)
        requires
            total(unit),
            self@.well_formed(),
        ensures
            r matches Ok(results) ==> results@.len() == var_sets@.len(),
            forall|o: Oracle| #[trigger]
                agrees(unit, o) ==> gives_all(r, run_batch(self@, sets_of(var_sets@), o)),
    {
        let mut vm = VM::new(self);
        vm.run_batch(var_sets, unit)
    }

    /// A context with one entry, `+0.0`, for each variable of the program.
    pub fn create_context(&self) -> (c: Context)
        ensures
            c@ == zeros(self@.var_names.len()),
    {
        Context::with_capacity(self.var_names.len())
    }
}

} // verus!

