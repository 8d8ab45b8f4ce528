//! The rewriting of trees and their lowering to programs.
//!
//! What the two passes do is stated by [`optimize`] and [`lower`]; the
//! methods of [`Compiler`] are proved to compute them.

use crate::arith::{
    agrees, answers, is_one, is_zero, negate, negated, one_bits, total, zero_bits, Operation, Oracle, Query,
    ONE, ZERO,
};
use crate::ast::{lemma_terms, lemma_terms_push, terms, BinaryOp, Expr, Term, UnaryOp};
use crate::bytecode::{
    lemma_linked_is_well_formed, Builtin, Code, FunctionMetadata, OpCode, Program,
};
use crate::correctness::lemma_lower_consistent;
use crate::error::{Error, ErrorKind};
use crate::pool::{find_bits, find_name, index_of, names};
use crate::vm::apply_binary;
use vstd::prelude::*;

verus! {

/// The number that a tree is, where it is a numeric literal.
pub open spec fn literal(t: Term) -> Option<u64> {
    match t {
        Term::Number(n) => Some(n),
        _ => None,
    }
}

/// The tree is a literal that compares equal to zero.
pub open spec fn literal_zero(t: Term) -> bool {
    literal(t) matches Some(n) && is_zero(n)
}

/// The tree is a literal that compares equal to one.
pub open spec fn literal_one(t: Term) -> bool {
    literal(t) matches Some(n) && is_one(n)
}

/// The node folds: both operands are literals, and the node is no division
/// by a zero literal.
pub open spec fn folds(op: BinaryOp, l: Term, r: Term) -> bool {
    literal(l) is Some && literal(r) is Some && !(op == BinaryOp::Div && literal_zero(r))
}

/// The rewrite of one infix node whose operands are already rewritten,
/// where `folded` is what the arithmetic gives for the node if it folds.
///
/// Two literals fold into one, except a division by a zero literal, which
/// stays so that it fails when evaluated. Otherwise the identities
/// `x + 0`, `0 + x`, `x - 0`, `x * 1`, `1 * x`, `x / 1`, `x ^ 1` give `x`;
/// `x * 0` and `0 * x` give `0`; `x ^ 0` gives `1`.
pub open spec fn simplify_with(op: BinaryOp, l: Term, r: Term, folded: u64) -> Term {
    let same = Term::Binary(op, Box::new(l), Box::new(r));
    if literal(l) is Some && literal(r) is Some {
        if op == BinaryOp::Div && literal_zero(r) {
            same
        } else {
            Term::Number(folded)
        }
    } else {
        match op {
            BinaryOp::Add => if literal_zero(l) {
                r
            } else if literal_zero(r) {
                l
            } else {
                same
            },
            BinaryOp::Sub => if literal_zero(r) {
                l
            } else {
                same
            },
            BinaryOp::Mul => if literal_zero(l) || literal_zero(r) {
                Term::Number(ZERO)
            } else if literal_one(l) {
                r
            } else if literal_one(r) {
                l
            } else {
                same
            },
            BinaryOp::Div => if literal_one(r) {
                l
            } else {
                same
            },
            BinaryOp::Pow => if literal_zero(r) {
                Term::Number(ONE)
            } else if literal_one(r) {
                l
            } else {
                same
            },
        }
    }
}

/// The rewrite of one infix node whose operands are already rewritten,
/// under the arithmetic `o`.
pub open spec fn simplify(op: BinaryOp, l: Term, r: Term, o: Oracle) -> Term {
    simplify_with(op, l, r, o(Query::Binary(op, literal(l)->0, literal(r)->0)))
}

/// The rewritten tree: operands first, then the node itself, in one pass.
pub open spec fn optimize(t: Term, o: Oracle) -> Term
    decreases t,
{
    match t {
        Term::Binary(op, l, r) => simplify(op, optimize(*l, o), optimize(*r, o), o),
        Term::Neg(e) => {
            let inner = optimize(*e, o);
            match inner {
                Term::Number(n) => Term::Number(negated(n)),
                _ => Term::Neg(Box::new(inner)),
            }
        },
        Term::Call(f, args) => Term::Call(f, optimize_all(args, o)),
        _ => t,
    }
}

/// Each tree of a list rewritten, in order.
pub open spec fn optimize_all(args: Seq<Term>, o: Oracle) -> Seq<Term>
    decreases args,
{
    if args.len() == 0 {
        Seq::empty()
    } else {
        optimize_all(args.drop_last(), o).push(optimize(args.last(), o))
    }
}

/// Once lowering a list has failed, lowering more of it fails the same way.
pub proof fn lemma_lower_all_stops(args: Seq<Term>, k: int, c: Code)
    requires
        0 <= k <= args.len(),
    ensures
        lower_all(args.take(k), c) matches Err(e) ==> lower_all(args, c) == Err::<Code, ErrorKind>(
            e,
        ),
    decreases args.len(),
{
    if k == args.len() {
        assert(args.take(k) =~= args);
    } else {
        assert(args.drop_last().take(k) =~= args.take(k));
        lemma_lower_all_stops(args.drop_last(), k, c);
    }
}

/// Rewrites one infix node whose operands are already rewritten.
pub fn combine<F: Fn(Operation) -> u64>(op: BinaryOp, left: Expr, right: Expr, unit: &F) -> (r:
    Expr)
    requires
        total(unit),
    ensures
        exists|folded: u64|
            {
                &&& folds(op, left@, right@) ==> answers(
                    unit,
                    Query::Binary(op, literal(left@)->0, literal(right@)->0),
                    folded,
                )
                &&& r@ == #[trigger] simplify_with(op, left@, right@, folded)
            },
        forall|o: Oracle| #[trigger] agrees(unit, o) ==> r@ == simplify(op, left@, right@, o),
{
    let l: Option<u64> = match &left {
        Expr::Number(n) => Some(*n),
        _ => None,
    };
    let r: Option<u64> = match &right {
        Expr::Number(n) => Some(*n),
        _ => None,
    };
    let l_zero = match l {
        Some(n) => zero_bits(n),
        None => false,
    };
    let r_zero = match r {
        Some(n) => zero_bits(n),
        None => false,
    };
    let l_one = match l {
        Some(n) => one_bits(n),
        None => false,
    };
    let r_one = match r {
        Some(n) => one_bits(n),
        None => false,
    };
    assert(l == literal(left@) && r == literal(right@));
    if let Some(a) = l {
        if let Some(b) = r {
            if matches!(op, BinaryOp::Div) && r_zero {
                let kept = Expr::Binary { op, left: Box::new(left), right: Box::new(right) };
                assert(kept@ == simplify_with(op, left@, right@, 0));
                return kept;
            }
            let folded = apply_binary(op, a, b, unit);
            assert(Expr::Number(folded)@ == simplify_with(op, left@, right@, folded));
            return Expr::Number(folded);
        }
    }
    let ghost whatever: u64 = 0;
    let result = match op {
        BinaryOp::Add => {
            if l_zero {
                right
            } else if r_zero {
                left
            } else {
                Expr::Binary { op, left: Box::new(left), right: Box::new(right) }
            }
        },
        BinaryOp::Sub => {
            if r_zero {
                left
            } else {
                Expr::Binary { op, left: Box::new(left), right: Box::new(right) }
            }
        },
        BinaryOp::Mul => {
            if l_zero || r_zero {
                Expr::Number(ZERO)
            } else if l_one {
                right
            } else if r_one {
                left
            } else {
                Expr::Binary { op, left: Box::new(left), right: Box::new(right) }
            }
        },
        BinaryOp::Div => {
            if r_one {
                left
            } else {
                Expr::Binary { op, left: Box::new(left), right: Box::new(right) }
            }
        },
        BinaryOp::Pow => {
            if r_zero {
                Expr::Number(ONE)
            } else if r_one {
                left
            } else {
                Expr::Binary { op, left: Box::new(left), right: Box::new(right) }
            }
        },
    };
    assert(result@ == simplify_with(op, left@, right@, whatever));
    result
}

/// The number of entries that a 16-bit index can tell apart.
pub const POOL_LIMIT: usize = 65536;

/// The largest number of arguments that a `Call` instruction can record.
pub const MAX_ARGS: usize = 255;

/// The high byte of a 16-bit operand.
pub open spec fn high(v: int) -> u8 {
    (v / 256) as u8
}

/// The low byte of a 16-bit operand.
pub open spec fn low(v: int) -> u8 {
    (v % 256) as u8
}

/// The opcode of an infix operator.
pub open spec fn infix_code(op: BinaryOp) -> OpCode {
    match op {
        BinaryOp::Add => OpCode::Add,
        BinaryOp::Sub => OpCode::Sub,
        BinaryOp::Mul => OpCode::Mul,
        BinaryOp::Div => OpCode::Div,
        BinaryOp::Pow => OpCode::Pow,
    }
}

impl Code {
    /// The program with `bytes` appended to its instruction stream.
    pub open spec fn emit(self, bytes: Seq<u8>) -> Code {
        Code { instructions: self.instructions + bytes, ..self }
    }

    /// The program with `n` in its constants pool: appended, unless it is
    /// there already.
    pub open spec fn with_constant(self, n: u64) -> Code {
        if index_of(self.constants, n) < self.constants.len() {
            self
        } else {
            Code { constants: self.constants.push(n), ..self }
        }
    }

    /// The program with `name` among its variables: appended, unless it is
    /// there already.
    pub open spec fn with_variable(self, name: Seq<char>) -> Code {
        if index_of(self.var_names, name) < self.var_names.len() {
            self
        } else {
            Code { var_names: self.var_names.push(name), ..self }
        }
    }

    /// The program with `name` in its function table: appended with the
    /// function it refers to, unless it is there already.
    pub open spec fn with_function(self, name: Seq<char>) -> Code {
        if index_of(self.func_names, name) < self.func_names.len() {
            self
        } else {
            Code {
                func_names: self.func_names.push(name),
                func_table: self.func_table.push(Builtin::named(name)),
                func_metadata: self.func_metadata.push(
                    FunctionMetadata { expected_args: Builtin::named(name).arity() },
                ),
                ..self
            }
        }
    }
}

/// The program `c` after the code for `t` has been appended to it: operands
/// first, left to right, then the operator; pools filled on first use.
/// Lowering fails where a pool index would not fit in 16 bits, or an
/// argument count in 8.
pub open spec fn lower(t: Term, c: Code) -> Result<Code, ErrorKind>
    decreases t,
{
    match t {
        Term::Number(n) => {
            let idx = index_of(c.constants, n);
            if idx >= POOL_LIMIT {
                Err(ErrorKind::PoolOverflow)
            } else {
                Ok(c.with_constant(n).emit(seq![OpCode::LoadConst.byte(), high(idx), low(idx)]))
            }
        },
        Term::Variable(name) => {
            let idx = index_of(c.var_names, name);
            if idx >= POOL_LIMIT {
                Err(ErrorKind::PoolOverflow)
            } else {
                Ok(c.with_variable(name).emit(seq![OpCode::LoadVar.byte(), high(idx), low(idx)]))
            }
        },
        Term::Binary(op, l, r) => match lower(*l, c) {
            Err(e) => Err(e),
            Ok(c1) => match lower(*r, c1) {
                Err(e) => Err(e),
                Ok(c2) => Ok(c2.emit(seq![infix_code(op).byte()])),
            },
        },
        Term::Neg(e) => match lower(*e, c) {
            Err(e) => Err(e),
            Ok(c1) => Ok(c1.emit(seq![OpCode::Neg.byte()])),
        },
        Term::Call(f, args) => if args.len() > MAX_ARGS {
            Err(ErrorKind::TooManyArguments(args.len() as usize))
        } else {
            match lower_all(args, c) {
                Err(e) => Err(e),
                Ok(c1) => {
                    let idx = index_of(c1.func_names, f);
                    if idx >= POOL_LIMIT {
                        Err(ErrorKind::PoolOverflow)
                    } else {
                        Ok(
                            c1.with_function(f).emit(
                                seq![OpCode::Call.byte(), high(idx), low(idx), args.len() as u8],
                            ),
                        )
                    }
                },
            }
        },
    }
}

/// The program `c` after the code for each tree of a list has been appended,
/// in order.
pub open spec fn lower_all(args: Seq<Term>, c: Code) -> Result<Code, ErrorKind>
    decreases args,
{
    if args.len() == 0 {
        Ok(c)
    } else {
        match lower_all(args.drop_last(), c) {
            Err(e) => Err(e),
            Ok(c1) => lower(args.last(), c1),
        }
    }
}

/// What compiling a tree gives: it is rewritten, then lowered into an empty
/// program.
pub open spec fn compile_term(t: Term, o: Oracle) -> Result<Code, ErrorKind> {
    lower(optimize(t, o), Code::empty())
}

/// The executable result `r` is the pool index `idx` where that fits in 16
/// bits, and the overflow error where it does not.
pub open spec fn emitted(r: Result<u16, Error>, idx: int) -> bool {
    match r {
        Ok(i) => i as int == idx,
        Err(e) => idx >= POOL_LIMIT && e == Error::plain(ErrorKind::PoolOverflow),
    }
}

/// Lowers expression trees to programs, after rewriting them.
pub struct Compiler {
    pub program: Program,
}

impl Compiler {
    /// A compiler that has lowered nothing yet.
    pub fn new() -> (c: Self)
        ensures
            c.program@ == Code::empty(),
    {
        Self { program: Program::new() }
    }

    /// Rewrites the tree, then lowers it into this compiler's program,
    /// which is empty in a compiler that has lowered nothing yet.
    pub fn compile<F: Fn(Operation) -> u64>(self, expr: Expr, unit: &F) -> (r: Result<
        Program,
        Error,
    >)
        requires
            total(unit),
        ensures
            self.program@.consistent() ==> (r matches Ok(p) ==> p@.consistent()
                && p@.well_formed()),
            forall|o: Oracle| #[trigger]
                agrees(unit, o) ==> match lower(optimize(expr@, o), self.program@) {
                    Ok(c) => r matches Ok(p) && p@ == c,
                    Err(k) => r matches Err(e) && e == Error::plain(k),
                },
    {
        let optimized = self.optimize_expr(expr, unit);
        let mut emitter = self;
        proof {
            if emitter.program@.consistent() {
                lemma_lower_consistent(optimized@, emitter.program@);
            }
        }
        match emitter.compile_expr(optimized) {
            Ok(()) => {
                proof {
                    if self.program@.consistent() {
                        lemma_linked_is_well_formed(emitter.program@, 0);
                    }
                }
                Ok(emitter.program)
            },
            Err(e) => Err(e),
        }
    }

    /// Appends the code for `expr` to the program.
    pub fn compile_expr(&mut self, expr: Expr) -> (r: Result<(), Error>)
        ensures
            final(self).program@.extends(old(self).program@),
            match lower(expr@, old(self).program@) {
                Ok(c) => r is Ok && final(self).program@ == c,
                Err(k) => r matches Err(e) && e == Error::plain(k),
            },
        decreases expr,
    {
        match expr {
            Expr::Number(n) => {
                match self.add_constant(n) {
                    Err(e) => Err(e),
                    Ok(idx) => {
                        self.emit_load_const(idx);
                        Ok(())
                    },
                }
            },
            Expr::Variable(name) => {
                match self.resolve_var(name) {
                    Err(e) => Err(e),
                    Ok(idx) => {
                        self.emit_load_var(idx);
                        Ok(())
                    },
                }
            },
            Expr::Binary { op, left, right } => {
                match self.compile_expr(*left) {
                    Err(e) => Err(e),
                    Ok(()) => match self.compile_expr(*right) {
                        Err(e) => Err(e),
                        Ok(()) => {
                            self.emit_binop(op);
                            Ok(())
                        },
                    },
                }
            },
            Expr::Unary { op, expr } => {
                match self.compile_expr(*expr) {
                    Err(e) => Err(e),
                    Ok(()) => {
                        self.emit_unop(op);
                        Ok(())
                    },
                }
            },
            Expr::Call { func, args } => {
                let count = args.len();
                let ghost given = args@;
                let ghost start = self.program@;
                proof {
                    lemma_terms(given);
                }
                if count > MAX_ARGS {
                    return Err(Error::new(ErrorKind::TooManyArguments(count)));
                }
                for arg in it: args
                    invariant
                        it.seq() == given,
                        start == old(self).program@,
                        self.program@.extends(start),
                        given.len() <= MAX_ARGS,
                        expr == (Expr::Call { func, args }),
                        lower_all(terms(given.take(it.index() as int)), start) == Ok::<
                            Code,
                            ErrorKind,
                        >(self.program@),
                {
                    let ghost i = it.index() as int;
                    proof {
                        assert(arg == given[i]);
                        assert(decreases_to!(expr => expr->args@[i]));
                        lemma_terms(given);
                        lemma_terms_push(given.take(i), given[i]);
                        assert(given.take(i).push(given[i]) =~= given.take(i + 1));
                        assert(terms(given.take(i)).push(given[i]@).drop_last() =~= terms(
                            given.take(i),
                        ));
                        lemma_lower_all_stops(terms(given), i + 1, start);
                        assert(terms(given).take(i + 1) =~= terms(given.take(i + 1))) by {
                            lemma_terms(given.take(i + 1));
                        }
                    }
                    match self.compile_expr(arg) {
                        Err(e) => {
                            return Err(e);
                        },
                        Ok(()) => {},
                    }
                }
                proof {
                    assert(given.take(given.len() as int) =~= given);
                }
                match self.resolve_func(func) {
                    Err(e) => Err(e),
                    Ok(idx) => {
                        self.emit_call(idx, count as u8);
                        Ok(())
                    },
                }
            },
        }
    }

    /// The index of `value` in the constants pool, after it has been added
    /// where it was missing.
    pub fn add_constant(&mut self, value: u64) -> (r: Result<u16, Error>)
        ensures
            emitted(r, index_of(old(self).program@.constants, value)),
            final(self).program@ == if r is Ok {
                old(self).program@.with_constant(value)
            } else {
                old(self).program@
            },
    {
        let idx = find_bits(&self.program.constants, value);
        if idx >= POOL_LIMIT {
            return Err(Error::new(ErrorKind::PoolOverflow));
        }
        if idx == self.program.constants.len() {
            self.program.constants.push(value);
        }
        Ok(idx as u16)
    }

    /// The index of `name` in the variable list, after it has been added
    /// where it was missing.
    pub fn resolve_var(&mut self, name: String) -> (r: Result<u16, Error>)
        ensures
            emitted(r, index_of(old(self).program@.var_names, name@)),
            final(self).program@ == if r is Ok {
                old(self).program@.with_variable(name@)
            } else {
                old(self).program@
            },
    {
        let idx = find_name(&self.program.var_names, name.as_str());
        if idx >= POOL_LIMIT {
            return Err(Error::new(ErrorKind::PoolOverflow));
        }
        if idx == self.program.var_names.len() {
            self.program.var_names.push(name);
            assert(names(self.program.var_names@) =~= names(old(self).program.var_names@).push(
                name@,
            ));
        }
        Ok(idx as u16)
    }

    /// The index of `name` in the function table, after it has been looked
    /// up among the built-in functions and added where it was missing.
    pub fn resolve_func(&mut self, name: String) -> (r: Result<u16, Error>)
        ensures
            emitted(r, index_of(old(self).program@.func_names, name@)),
            final(self).program@ == if r is Ok {
                old(self).program@.with_function(name@)
            } else {
                old(self).program@
            },
    {
        let idx = find_name(&self.program.func_names, name.as_str());
        if idx >= POOL_LIMIT {
            return Err(Error::new(ErrorKind::PoolOverflow));
        }
        if idx == self.program.func_names.len() {
            let f = Builtin::resolve(name.as_str());
            self.program.func_table.push(f);
            self.program.func_metadata.push(f.metadata());
            self.program.func_names.push(name);
            assert(names(self.program.func_names@) =~= names(old(self).program.func_names@).push(
                name@,
            ));
        }
        Ok(idx as u16)
    }

    /// Appends `LoadConst idx`.
    pub fn emit_load_const(&mut self, idx: u16)
        ensures
            final(self).program@ == old(self).program@.emit(
                seq![OpCode::LoadConst.byte(), high(idx as int), low(idx as int)],
            ),
    {
        self.program.instructions.push(OpCode::LoadConst.to_byte());
        self.emit_u16(idx);
        assert(self.program@.instructions =~= old(self).program@.instructions
            + seq![OpCode::LoadConst.byte(), high(idx as int), low(idx as int)]);
    }

    /// Appends `LoadVar idx`.
    pub fn emit_load_var(&mut self, idx: u16)
        ensures
            final(self).program@ == old(self).program@.emit(
                seq![OpCode::LoadVar.byte(), high(idx as int), low(idx as int)],
            ),
    {
        self.program.instructions.push(OpCode::LoadVar.to_byte());
        self.emit_u16(idx);
        assert(self.program@.instructions =~= old(self).program@.instructions
            + seq![OpCode::LoadVar.byte(), high(idx as int), low(idx as int)]);
    }

    /// Appends the opcode of an infix operator.
    pub fn emit_binop(&mut self, op: BinaryOp)
        ensures
            final(self).program@ == old(self).program@.emit(seq![infix_code(op).byte()]),
    {
        let opcode = match op {
            BinaryOp::Add => OpCode::Add,
            BinaryOp::Sub => OpCode::Sub,
            BinaryOp::Mul => OpCode::Mul,
            BinaryOp::Div => OpCode::Div,
            BinaryOp::Pow => OpCode::Pow,
        };
        self.program.instructions.push(opcode.to_byte());
        assert(self.program@.instructions =~= old(self).program@.instructions
            + seq![infix_code(op).byte()]);
    }

    /// Appends the opcode of a prefix operator.
    pub fn emit_unop(&mut self, op: UnaryOp)
        ensures
            final(self).program@ == old(self).program@.emit(seq![OpCode::Neg.byte()]),
    {
        let opcode = match op {
            UnaryOp::Neg => OpCode::Neg,
        };
        self.program.instructions.push(opcode.to_byte());
        assert(self.program@.instructions =~= old(self).program@.instructions
            + seq![OpCode::Neg.byte()]);
    }

    /// Appends `Call func_idx arg_count`.
    pub fn emit_call(&mut self, func_idx: u16, arg_count: u8)
        ensures
            final(self).program@ == old(self).program@.emit(
                seq![OpCode::Call.byte(), high(func_idx as int), low(func_idx as int), arg_count],
            ),
    {
        self.program.instructions.push(OpCode::Call.to_byte());
        self.emit_u16(func_idx);
        self.program.instructions.push(arg_count);
        assert(self.program@.instructions =~= old(self).program@.instructions
            + seq![OpCode::Call.byte(), high(func_idx as int), low(func_idx as int), arg_count]);
    }

    /// Appends a 16-bit operand, high byte first.
    pub fn emit_u16(&mut self, value: u16)
        ensures
            final(self).program@ == old(self).program@.emit(
                seq![high(value as int), low(value as int)],
            ),
    {
        self.program.instructions.push((value / 256) as u8);
        self.program.instructions.push((value % 256) as u8);
        assert(self.program@.instructions =~= old(self).program@.instructions
            + seq![high(value as int), low(value as int)]);
    }

    /// Folds constants and applies the algebraic identities, bottom-up.
    pub fn optimize_expr<F: Fn(Operation) -> u64>(&self, expr: Expr, unit: &F) -> (r: Expr)
        requires
            total(unit),
        ensures
            forall|o: Oracle| #[trigger] agrees(unit, o) ==> r@ == optimize(expr@, o),
        decreases expr,
    {
        match expr {
            Expr::Binary { op, left, right } => {
                let left = self.optimize_expr(*left, unit);
                let right = self.optimize_expr(*right, unit);
                combine(op, left, right, unit)
            },
            Expr::Unary { op, expr } => {
                let inner = self.optimize_expr(*expr, unit);
                match inner {
                    Expr::Number(n) => Expr::Number(negate(n)),
                    _ => Expr::Unary { op, expr: Box::new(inner) },
                }
            },
            Expr::Call { func, args } => {
                let ghost given = args@;
                let mut done: Vec<Expr> = Vec::new();
                for arg in it: args
                    invariant
                        total(unit),
                        it.seq() == given,
                        expr == (Expr::Call { func, args }),
                        forall|o: Oracle| #[trigger]
                            agrees(unit, o) ==> terms(done@) == optimize_all(
                                terms(given.take(it.index() as int)),
                                o,
                            ),
                {
                    let ghost i = it.index() as int;
                    let ghost before = done@;
                    proof {
                        assert(arg == given[i]);
                        assert(decreases_to!(expr => expr->args@[i]));
                    }
                    let better = self.optimize_expr(arg, unit);
                    done.push(better);
                    proof {
                        lemma_terms_push(before, better);
                        lemma_terms_push(given.take(i), given[i]);
                        assert(given.take(i).push(given[i]) =~= given.take(i + 1));
                        assert forall|o: Oracle| #[trigger] agrees(unit, o) implies terms(done@)
                            == optimize_all(terms(given.take(i + 1)), o) by {
                            let s = terms(given.take(i));
                            assert(s.push(given[i]@).drop_last() =~= s);
                        }
                    }
                }
                proof {
                    assert(given.take(given.len() as int) =~= given);
                }
                Expr::Call { func, args: done }
            },
            other => other,
        }
    }
}

} // verus!
