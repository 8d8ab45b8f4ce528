//! The lowering is correct: the code appended for a tree leaves the
//! program consistent, computes the tree's value on the stack machine, and
//! keeps the stack within the tree's depth.

use crate::arith::{is_zero, negated, Oracle, Query};
use crate::ast::{BinaryOp, Term};
use crate::bytecode::{lemma_linked_extends, operand, Builtin, Code, OpCode};
use crate::compiler::{high, infix_code, low, lower, lower_all, MAX_ARGS, POOL_LIMIT};
use crate::error::ErrorKind;
use crate::pool::{distinct, index_of, lemma_index_of, lemma_index_of_is};
use crate::vm::{applied, evaluate, infix_of, run, step, Step};
use vstd::prelude::*;

verus! {

/// A 16-bit operand is read back as it was written.
pub proof fn lemma_operand_round_trip(idx: int)
    requires
        0 <= idx < POOL_LIMIT,
    ensures
        operand(high(idx), low(idx)) == idx,
{
    assert(0 <= idx / 256 < 256 && 0 <= idx % 256 < 256 && idx == (idx / 256) * 256 + idx % 256)
        by (nonlinear_arith)
        requires
            0 <= idx < 65536,
    ;
}

/// A pool stays free of duplicates when a value that it lacks is appended.
pub proof fn lemma_distinct_push<T>(s: Seq<T>, x: T)
    requires
        distinct(s),
        index_of(s, x) >= s.len(),
    ensures
        distinct(s.push(x)),
{
    lemma_index_of(s, x);
}

/// `extends` is transitive.
pub proof fn lemma_extends_trans(a: Code, b: Code, c: Code)
    requires
        b.extends(a),
        c.extends(b),
    ensures
        c.extends(a),
{
}

/// Appending one complete instruction to a consistent program, with pools
/// that hold what it refers to, gives a consistent program.
pub proof fn lemma_emit_consistent(c: Code, d: Code, bytes: Seq<u8>)
    requires
        c.linked_from(0),
        d.extends(c),
        d.instructions == c.instructions + bytes,
        bytes.len() >= 1,
        OpCode::decode(bytes[0]) matches Some(op) && bytes.len() == 1 + op.operand_len() && (op
            == OpCode::LoadConst ==> operand(bytes[1], bytes[2]) < d.constants.len()) && (op
            == OpCode::LoadVar ==> operand(bytes[1], bytes[2]) < d.var_names.len()) && (op
            == OpCode::Call ==> operand(bytes[1], bytes[2]) < d.func_table.len()),
    ensures
        d.linked_from(0),
{
    let at = c.instructions.len() as int;
    assert(d.instructions[at] == bytes[0]);
    let op = OpCode::decode(bytes[0])->0;
    if op.operand_len() >= 2 {
        assert(d.instructions[at + 1] == bytes[1]);
        assert(d.instructions[at + 2] == bytes[2]);
    }
    assert(d.linked_from(at + 1 + op.operand_len()));
    assert(d.linked_from(at));
    lemma_linked_extends(c, d, 0);
}

/// Lowering a tree into a consistent program gives a consistent program
/// that extends it.
pub proof fn lemma_lower_consistent(t: Term, c: Code)
    requires
        c.consistent(),
    ensures
        lower(t, c) matches Ok(d) ==> d.consistent() && d.extends(c),
    decreases t,
{
    match t {
        Term::Number(n) => {
            let idx = index_of(c.constants, n);
            lemma_index_of(c.constants, n);
            if idx < POOL_LIMIT {
                let bytes = seq![OpCode::LoadConst.byte(), high(idx), low(idx)];
                let d = c.with_constant(n).emit(bytes);
                lemma_operand_round_trip(idx);
                if idx >= c.constants.len() {
                    lemma_distinct_push(c.constants, n);
                }
                lemma_emit_consistent(c, d, bytes);
            }
        },
        Term::Variable(name) => {
            let idx = index_of(c.var_names, name);
            lemma_index_of(c.var_names, name);
            if idx < POOL_LIMIT {
                let bytes = seq![OpCode::LoadVar.byte(), high(idx), low(idx)];
                let d = c.with_variable(name).emit(bytes);
                lemma_operand_round_trip(idx);
                if idx >= c.var_names.len() {
                    lemma_distinct_push(c.var_names, name);
                }
                lemma_emit_consistent(c, d, bytes);
            }
        },
        Term::Binary(op, l, r) => {
            lemma_lower_consistent(*l, c);
            if let Ok(c1) = lower(*l, c) {
                lemma_lower_consistent(*r, c1);
                if let Ok(c2) = lower(*r, c1) {
                    let bytes = seq![infix_code(op).byte()];
                    let d = c2.emit(bytes);
                    lemma_emit_consistent(c2, d, bytes);
                    lemma_extends_trans(c, c1, c2);
                    lemma_extends_trans(c, c2, d);
                }
            }
        },
        Term::Neg(e) => {
            lemma_lower_consistent(*e, c);
            if let Ok(c1) = lower(*e, c) {
                let bytes = seq![OpCode::Neg.byte()];
                let d = c1.emit(bytes);
                lemma_emit_consistent(c1, d, bytes);
                lemma_extends_trans(c, c1, d);
            }
        },
        Term::Call(f, args) => {
            if args.len() <= MAX_ARGS {
                lemma_lower_all_consistent(args, c);
                if let Ok(c1) = lower_all(args, c) {
                    let idx = index_of(c1.func_names, f);
                    lemma_index_of(c1.func_names, f);
                    if idx < POOL_LIMIT {
                        let bytes = seq![
                            OpCode::Call.byte(),
                            high(idx),
                            low(idx),
                            args.len() as u8,
                        ];
                        let d = c1.with_function(f).emit(bytes);
                        lemma_operand_round_trip(idx);
                        if idx >= c1.func_names.len() {
                            lemma_distinct_push(c1.func_names, f);
                        }
                        lemma_emit_consistent(c1, d, bytes);
                        lemma_extends_trans(c, c1, d);
                    }
                }
            }
        },
    }
}

/// Lowering a list of trees into a consistent program gives a consistent
/// program that extends it.
pub proof fn lemma_lower_all_consistent(args: Seq<Term>, c: Code)
    requires
        c.consistent(),
    ensures
        lower_all(args, c) matches Ok(d) ==> d.consistent() && d.extends(c),
    decreases args,
{
    if args.len() > 0 {
        lemma_lower_all_consistent(args.drop_last(), c);
        if let Ok(c1) = lower_all(args.drop_last(), c) {
            lemma_lower_consistent(args.last(), c1);
            if let Ok(d) = lower(args.last(), c1) {
                lemma_extends_trans(c, c1, d);
            }
        }
    }
}

/// The value of a tree, where variable `name` is bound to entry
/// `index_of(vars, name)` of `env`: operands are evaluated left to right,
/// and a division by zero is the one error.
pub open spec fn value(t: Term, vars: Seq<Seq<char>>, env: Seq<u64>, o: Oracle) -> Result<
    u64,
    ErrorKind,
>
    decreases t,
{
    match t {
        Term::Number(n) => Ok(n),
        Term::Variable(name) => Ok(env[index_of(vars, name)]),
        Term::Binary(op, l, r) => match value(*l, vars, env, o) {
            Err(e) => Err(e),
            Ok(a) => match value(*r, vars, env, o) {
                Err(e) => Err(e),
                Ok(b) => if op == BinaryOp::Div && is_zero(b) {
                    Err(ErrorKind::DivisionByZero)
                } else {
                    Ok(o(Query::Binary(op, a, b)))
                },
            },
        },
        Term::Neg(e) => match value(*e, vars, env, o) {
            Err(e) => Err(e),
            Ok(a) => Ok(negated(a)),
        },
        Term::Call(f, args) => match values(args, vars, env, o) {
            Err(e) => Err(e),
            Ok(vs) => Ok(applied(Builtin::named(f), vs, o)),
        },
    }
}

/// The values of a list of trees, evaluated in order up to the first error.
pub open spec fn values(args: Seq<Term>, vars: Seq<Seq<char>>, env: Seq<u64>, o: Oracle) -> Result<
    Seq<u64>,
    ErrorKind,
>
    decreases args,
{
    if args.len() == 0 {
        Ok(Seq::empty())
    } else {
        match values(args.drop_last(), vars, env, o) {
            Err(e) => Err(e),
            Ok(vs) => match value(args.last(), vars, env, o) {
                Err(e) => Err(e),
                Ok(v) => Ok(vs.push(v)),
            },
        }
    }
}

/// A list of trees has as many values as trees.
pub proof fn lemma_values_len(args: Seq<Term>, vars: Seq<Seq<char>>, env: Seq<u64>, o: Oracle)
    ensures
        values(args, vars, env, o) matches Ok(vs) ==> vs.len() == args.len(),
    decreases args.len(),
{
    if args.len() > 0 {
        lemma_values_len(args.drop_last(), vars, env, o);
    }
}

/// The machine executes `LoadConst idx` by pushing constant `idx`.
pub proof fn lemma_run_load_const(
    p: Code,
    env: Seq<u64>,
    at: int,
    stack: Seq<u64>,
    o: Oracle,
    idx: int,
)
    requires
        0 <= at,
        at + 2 < p.instructions.len(),
        p.instructions[at] == OpCode::LoadConst.byte(),
        p.instructions[at + 1] == high(idx),
        p.instructions[at + 2] == low(idx),
        0 <= idx < POOL_LIMIT,
    ensures
        run(p, env, at, stack, o) == run(p, env, at + 3, stack.push(p.constants[idx]), o),
{
    lemma_operand_round_trip(idx);
}

/// The machine executes `LoadVar idx` by pushing entry `idx` of the context.
pub proof fn lemma_run_load_var(
    p: Code,
    env: Seq<u64>,
    at: int,
    stack: Seq<u64>,
    o: Oracle,
    idx: int,
)
    requires
        0 <= at,
        at + 2 < p.instructions.len(),
        p.instructions[at] == OpCode::LoadVar.byte(),
        p.instructions[at + 1] == high(idx),
        p.instructions[at + 2] == low(idx),
        0 <= idx < POOL_LIMIT,
    ensures
        run(p, env, at, stack, o) == run(p, env, at + 3, stack.push(env[idx]), o),
{
    lemma_operand_round_trip(idx);
}

/// The machine executes an infix opcode on the two values on top of the
/// stack: it stops where it is to divide by zero, and else replaces them by
/// what the arithmetic gives.
pub proof fn lemma_run_infix(
    p: Code,
    env: Seq<u64>,
    at: int,
    stack: Seq<u64>,
    op: BinaryOp,
    a: u64,
    b: u64,
    o: Oracle,
)
    requires
        0 <= at < p.instructions.len(),
        p.instructions[at] == infix_code(op).byte(),
    ensures
        op == BinaryOp::Div && is_zero(b) ==> run(p, env, at, stack.push(a).push(b), o).result
            == Err::<u64, ErrorKind>(ErrorKind::DivisionByZero),
        !(op == BinaryOp::Div && is_zero(b)) ==> run(p, env, at, stack.push(a).push(b), o) == run(
            p,
            env,
            at + 1,
            stack.push(o(Query::Binary(op, a, b))),
            o,
        ),
{
    let full = stack.push(a).push(b);
    assert(full.take(full.len() - 2) =~= stack);
    assert(infix_of(infix_code(op)) == Some(op));
    assert(OpCode::decode(infix_code(op).byte()) == Some(infix_code(op)));
}

/// The machine executes `Neg` by flipping the sign of the value on top of
/// the stack.
pub proof fn lemma_run_neg(p: Code, env: Seq<u64>, at: int, stack: Seq<u64>, a: u64, o: Oracle)
    requires
        0 <= at < p.instructions.len(),
        p.instructions[at] == OpCode::Neg.byte(),
    ensures
        run(p, env, at, stack.push(a), o) == run(p, env, at + 1, stack.push(negated(a)), o),
{
    assert(stack.push(a).drop_last() =~= stack);
}

/// The machine executes `Call idx n` by replacing the `n` values on top of
/// the stack by what function `idx` of the table gives for them.
pub proof fn lemma_run_call(
    p: Code,
    env: Seq<u64>,
    at: int,
    stack: Seq<u64>,
    args: Seq<u64>,
    o: Oracle,
    idx: int,
)
    requires
        0 <= at,
        at + 3 < p.instructions.len(),
        p.instructions[at] == OpCode::Call.byte(),
        p.instructions[at + 1] == high(idx),
        p.instructions[at + 2] == low(idx),
        p.instructions[at + 3] == args.len(),
        0 <= idx < POOL_LIMIT,
        idx < p.func_table.len(),
    ensures
        run(p, env, at, stack + args, o) == run(
            p,
            env,
            at + 4,
            stack.push(applied(p.func_table[idx], args, o)),
            o,
        ),
{
    lemma_operand_round_trip(idx);
    let full = stack + args;
    assert(full.subrange(full.len() - args.len(), full.len() as int) =~= args);
    assert(full.take(full.len() - args.len()) =~= stack);
}

/// The code that lowering appends for a tree computes the tree's value.
///
/// Let `t` be lowered into the consistent program `c`, and let `p` be any
/// program that extends the result. Run `p` from the end of `c`'s stream on
/// any stack: where `t` has a value, execution reaches the end of the
/// appended code with that value pushed; where it has none, execution ends
/// in the same error.
#[verifier::spinoff_prover]
pub proof fn lemma_lower_runs(
    t: Term,
    c: Code,
    p: Code,
    env: Seq<u64>,
    stack: Seq<u64>,
    o: Oracle,
)
    requires
        c.consistent(),
        lower(t, c) matches Ok(d) && p.extends(d),
    ensures
        ({
            let d = lower(t, c)->Ok_0;
            match value(t, p.var_names, env, o) {
                Ok(v) => run(p, env, c.instructions.len() as int, stack, o) == run(
                    p,
                    env,
                    d.instructions.len() as int,
                    stack.push(v),
                    o,
                ),
                Err(e) => run(p, env, c.instructions.len() as int, stack, o).result == Err::<
                    u64,
                    ErrorKind,
                >(e),
            }
        }),
    decreases t,
{
    let d = lower(t, c)->Ok_0;
    let from = c.instructions.len() as int;
    lemma_lower_consistent(t, c);
    match t {
        Term::Number(n) => {
            let idx = index_of(c.constants, n);
            lemma_index_of(c.constants, n);
            assert(p.instructions[from] == d.instructions[from]);
            assert(p.instructions[from + 1] == d.instructions[from + 1]);
            assert(p.instructions[from + 2] == d.instructions[from + 2]);
            assert(p.constants[idx] == d.constants[idx]);
            lemma_run_load_const(p, env, from, stack, o, idx);
        },
        Term::Variable(name) => {
            let idx = index_of(c.var_names, name);
            lemma_index_of(c.var_names, name);
            assert(p.instructions[from] == d.instructions[from]);
            assert(p.instructions[from + 1] == d.instructions[from + 1]);
            assert(p.instructions[from + 2] == d.instructions[from + 2]);
            assert(p.var_names[idx] == d.var_names[idx]);
            assert forall|j: int| 0 <= j < idx implies p.var_names[j] != name by {
                assert(p.var_names[j] == c.var_names[j]);
            }
            lemma_index_of_is(p.var_names, name, idx);
            lemma_run_load_var(p, env, from, stack, o, idx);
        },
        Term::Binary(op, l, r) => {
            let c1 = lower(*l, c)->Ok_0;
            let c2 = lower(*r, c1)->Ok_0;
            lemma_lower_consistent(*l, c);
            lemma_lower_consistent(*r, c1);
            lemma_extends_trans(c2, d, p);
            lemma_extends_trans(c1, c2, p);
            lemma_lower_runs(*l, c, p, env, stack, o);
            if let Ok(a) = value(*l, p.var_names, env, o) {
                lemma_lower_runs(*r, c1, p, env, stack.push(a), o);
                if let Ok(b) = value(*r, p.var_names, env, o) {
                    let at = c2.instructions.len() as int;
                    assert(p.instructions[at] == d.instructions[at]);
                    lemma_run_infix(p, env, at, stack, op, a, b, o);
                }
            }
        },
        Term::Neg(e) => {
            let c1 = lower(*e, c)->Ok_0;
            lemma_lower_consistent(*e, c);
            lemma_extends_trans(c1, d, p);
            lemma_lower_runs(*e, c, p, env, stack, o);
            if let Ok(a) = value(*e, p.var_names, env, o) {
                let at = c1.instructions.len() as int;
                assert(p.instructions[at] == d.instructions[at]);
                lemma_run_neg(p, env, at, stack, a, o);
            }
        },
        Term::Call(f, args) => {
            let c1 = lower_all(args, c)->Ok_0;
            lemma_lower_all_consistent(args, c);
            let idx = index_of(c1.func_names, f);
            lemma_index_of(c1.func_names, f);
            lemma_extends_trans(c1, d, p);
            lemma_lower_all_runs(args, c, p, env, stack, o);
            lemma_values_len(args, p.var_names, env, o);
            if let Ok(vs) = values(args, p.var_names, env, o) {
                let at = c1.instructions.len() as int;
                assert(p.instructions[at] == d.instructions[at]);
                assert(p.instructions[at + 1] == d.instructions[at + 1]);
                assert(p.instructions[at + 2] == d.instructions[at + 2]);
                assert(p.instructions[at + 3] == d.instructions[at + 3]);
                assert(p.func_table[idx] == d.func_table[idx]);
                assert(d.func_table[idx] == Builtin::named(f));
                lemma_run_call(p, env, at, stack, vs, o, idx);
            }
        },
    }
}

/// The code that lowering appends for a list of trees computes their
/// values, in order, on top of the stack.
pub proof fn lemma_lower_all_runs(
    args: Seq<Term>,
    c: Code,
    p: Code,
    env: Seq<u64>,
    stack: Seq<u64>,
    o: Oracle,
)
    requires
        c.consistent(),
        lower_all(args, c) matches Ok(d) && p.extends(d),
    ensures
        ({
            let d = lower_all(args, c)->Ok_0;
            match values(args, p.var_names, env, o) {
                Ok(vs) => run(p, env, c.instructions.len() as int, stack, o) == run(
                    p,
                    env,
                    d.instructions.len() as int,
                    stack + vs,
                    o,
                ),
                Err(e) => run(p, env, c.instructions.len() as int, stack, o).result == Err::<
                    u64,
                    ErrorKind,
                >(e),
            }
        }),
    decreases args,
{
    if args.len() == 0 {
        assert(stack + Seq::<u64>::empty() =~= stack);
    } else {
        let c1 = lower_all(args.drop_last(), c)->Ok_0;
        let d = lower(args.last(), c1)->Ok_0;
        lemma_lower_all_consistent(args.drop_last(), c);
        lemma_lower_consistent(args.last(), c1);
        lemma_extends_trans(c1, d, p);
        lemma_lower_all_runs(args.drop_last(), c, p, env, stack, o);
        if let Ok(vs) = values(args.drop_last(), p.var_names, env, o) {
            lemma_lower_runs(args.last(), c1, p, env, stack + vs, o);
            if let Ok(v) = value(args.last(), p.var_names, env, o) {
                assert((stack + vs).push(v) =~= stack + vs.push(v));
            }
        }
    }
}

/// A tree lowered into an empty program gives a program whose evaluation,
/// against any context that covers its variables and under any arithmetic,
/// is the value of the tree.
pub proof fn theorem_lowering_is_correct(t: Term, env: Seq<u64>, o: Oracle)
    requires
        lower(t, Code::empty()) matches Ok(p) && env.len() >= p.var_names.len(),
    ensures
        ({
            let p = lower(t, Code::empty())->Ok_0;
            evaluate(p, env, o) == value(t, p.var_names, env, o)
        }),
{
    let p = lower(t, Code::empty())->Ok_0;
    lemma_lower_runs(t, Code::empty(), p, env, Seq::empty(), o);
    if let Ok(v) = value(t, p.var_names, env, o) {
        assert(Seq::<u64>::empty().push(v).drop_last() =~= Seq::<u64>::empty());
    }
}

/// A tree has a value, or its evaluation divides by zero: a compiled
/// program meets none of the machine's internal errors.
pub proof fn lemma_value_fails_by_division_only(
    t: Term,
    vars: Seq<Seq<char>>,
    env: Seq<u64>,
    o: Oracle,
)
    ensures
        value(t, vars, env, o) matches Err(e) ==> e == ErrorKind::DivisionByZero,
    decreases t,
{
    match t {
        Term::Binary(op, l, r) => {
            lemma_value_fails_by_division_only(*l, vars, env, o);
            lemma_value_fails_by_division_only(*r, vars, env, o);
        },
        Term::Neg(e) => {
            lemma_value_fails_by_division_only(*e, vars, env, o);
        },
        Term::Call(f, args) => {
            lemma_values_fail_by_division_only(args, vars, env, o);
        },
        _ => {},
    }
}

/// As `lemma_value_fails_by_division_only`, of a list of trees.
pub proof fn lemma_values_fail_by_division_only(
    args: Seq<Term>,
    vars: Seq<Seq<char>>,
    env: Seq<u64>,
    o: Oracle,
)
    ensures
        values(args, vars, env, o) matches Err(e) ==> e == ErrorKind::DivisionByZero,
    decreases args,
{
    if args.len() > 0 {
        lemma_values_fail_by_division_only(args.drop_last(), vars, env, o);
        lemma_value_fails_by_division_only(args.last(), vars, env, o);
    }
}

/// The greater of two numbers.
pub open spec fn larger(a: nat, b: nat) -> nat {
    if a >= b {
        a
    } else {
        b
    }
}

/// The greatest depth that the stack has while the stream is executed from
/// `pc` on: the depths before each instruction, and the depth at the end or
/// at the error, before the result is popped.
pub open spec fn peak(c: Code, env: Seq<u64>, pc: int, stack: Seq<u64>, o: Oracle) -> nat
    decreases
        (if 0 <= pc < c.instructions.len() {
            c.instructions.len() - pc
        } else {
            0
        }),
{
    if 0 <= pc < c.instructions.len() {
        match step(c, env, pc, stack, o) {
            Step::Next { pc: next, stack: pushed } => larger(
                stack.len(),
                peak(c, env, next, pushed, o),
            ),
            Step::Halt { fault, stack: left } => stack.len(),
        }
    } else {
        stack.len()
    }
}

/// The depth of stack that evaluating a tree takes: one slot for a leaf;
/// for an infix node its left operand, or one slot for the left value and
/// the right operand above it; for a call its arguments, each above the
/// values of those before it, and one slot for the result.
pub open spec fn depth(t: Term) -> nat
    decreases t,
{
    match t {
        Term::Number(_) => 1,
        Term::Variable(_) => 1,
        Term::Binary(_, l, r) => larger(depth(*l), 1 + depth(*r)),
        Term::Neg(e) => depth(*e),
        Term::Call(_, args) => larger(1, depth_all(args)),
    }
}

/// The depth of stack that evaluating a list of trees takes, each above the
/// values of those before it.
pub open spec fn depth_all(args: Seq<Term>) -> nat
    decreases args,
{
    if args.len() == 0 {
        0
    } else {
        larger(depth_all(args.drop_last()), (args.len() - 1 + depth(args.last())) as nat)
    }
}

/// Every tree takes a slot; a list takes one for each of its trees.
pub proof fn lemma_depth_positive(t: Term)
    ensures
        depth(t) >= 1,
    decreases t,
{
    match t {
        Term::Binary(_, l, r) => {
            lemma_depth_positive(*l);
        },
        Term::Neg(e) => {
            lemma_depth_positive(*e);
        },
        _ => {},
    }
}

/// A list takes a slot for each of its trees.
pub proof fn lemma_depth_all_covers(args: Seq<Term>)
    ensures
        depth_all(args) >= args.len(),
    decreases args,
{
    if args.len() > 0 {
        lemma_depth_positive(args.last());
    }
}

/// The stack depths around `LoadConst` and `LoadVar`.
pub proof fn lemma_peak_load(
    p: Code,
    env: Seq<u64>,
    at: int,
    stack: Seq<u64>,
    o: Oracle,
    idx: int,
)
    requires
        0 <= at,
        at + 2 < p.instructions.len(),
        p.instructions[at] == OpCode::LoadConst.byte() || p.instructions[at]
            == OpCode::LoadVar.byte(),
        p.instructions[at + 1] == high(idx),
        p.instructions[at + 2] == low(idx),
        0 <= idx < POOL_LIMIT,
    ensures
        p.instructions[at] == OpCode::LoadConst.byte() ==> peak(p, env, at, stack, o) == larger(
            stack.len(),
            peak(p, env, at + 3, stack.push(p.constants[idx]), o),
        ),
        p.instructions[at] == OpCode::LoadVar.byte() ==> peak(p, env, at, stack, o) == larger(
            stack.len(),
            peak(p, env, at + 3, stack.push(env[idx]), o),
        ),
{
    lemma_operand_round_trip(idx);
}

/// The stack depths around an infix opcode.
pub proof fn lemma_peak_infix(
    p: Code,
    env: Seq<u64>,
    at: int,
    stack: Seq<u64>,
    op: BinaryOp,
    a: u64,
    b: u64,
    o: Oracle,
)
    requires
        0 <= at < p.instructions.len(),
        p.instructions[at] == infix_code(op).byte(),
    ensures
        op == BinaryOp::Div && is_zero(b) ==> peak(p, env, at, stack.push(a).push(b), o)
            == stack.len() + 2,
        !(op == BinaryOp::Div && is_zero(b)) ==> peak(p, env, at, stack.push(a).push(b), o)
            == larger(
            stack.len() + 2,
            peak(p, env, at + 1, stack.push(o(Query::Binary(op, a, b))), o),
        ),
{
    let full = stack.push(a).push(b);
    assert(full.take(full.len() - 2) =~= stack);
    assert(infix_of(infix_code(op)) == Some(op));
    assert(OpCode::decode(infix_code(op).byte()) == Some(infix_code(op)));
}

/// The stack depths around `Neg`.
pub proof fn lemma_peak_neg(p: Code, env: Seq<u64>, at: int, stack: Seq<u64>, a: u64, o: Oracle)
    requires
        0 <= at < p.instructions.len(),
        p.instructions[at] == OpCode::Neg.byte(),
    ensures
        peak(p, env, at, stack.push(a), o) == larger(
            stack.len() + 1,
            peak(p, env, at + 1, stack.push(negated(a)), o),
        ),
{
    assert(stack.push(a).drop_last() =~= stack);
}

/// The stack depths around `Call`.
pub proof fn lemma_peak_call(
    p: Code,
    env: Seq<u64>,
    at: int,
    stack: Seq<u64>,
    args: Seq<u64>,
    o: Oracle,
    idx: int,
)
    requires
        0 <= at,
        at + 3 < p.instructions.len(),
        p.instructions[at] == OpCode::Call.byte(),
        p.instructions[at + 1] == high(idx),
        p.instructions[at + 2] == low(idx),
        p.instructions[at + 3] == args.len(),
        0 <= idx < POOL_LIMIT,
        idx < p.func_table.len(),
    ensures
        peak(p, env, at, stack + args, o) == larger(
            stack.len() + args.len(),
            peak(p, env, at + 4, stack.push(applied(p.func_table[idx], args, o)), o),
        ),
{
    lemma_operand_round_trip(idx);
    let full = stack + args;
    assert(full.subrange(full.len() - args.len(), full.len() as int) =~= args);
    assert(full.take(full.len() - args.len()) =~= stack);
}

/// While the code that lowering appends for a tree is executed, the stack
/// grows by no more than the tree's depth.
#[verifier::spinoff_prover]
pub proof fn lemma_lower_peak(
    t: Term,
    c: Code,
    p: Code,
    env: Seq<u64>,
    stack: Seq<u64>,
    o: Oracle,
)
    requires
        c.consistent(),
        lower(t, c) matches Ok(d) && p.extends(d),
    ensures
        ({
            let d = lower(t, c)->Ok_0;
            match value(t, p.var_names, env, o) {
                Ok(v) => peak(p, env, c.instructions.len() as int, stack, o) <= larger(
                    stack.len() + depth(t),
                    peak(p, env, d.instructions.len() as int, stack.push(v), o),
                ),
                Err(e) => peak(p, env, c.instructions.len() as int, stack, o) <= stack.len()
                    + depth(t),
            }
        }),
    decreases t,
{
    let d = lower(t, c)->Ok_0;
    let from = c.instructions.len() as int;
    lemma_lower_consistent(t, c);
    lemma_depth_positive(t);
    match t {
        Term::Number(n) => {
            let idx = index_of(c.constants, n);
            lemma_index_of(c.constants, n);
            assert(p.instructions[from] == d.instructions[from]);
            assert(p.instructions[from + 1] == d.instructions[from + 1]);
            assert(p.instructions[from + 2] == d.instructions[from + 2]);
            assert(p.constants[idx] == d.constants[idx]);
            lemma_peak_load(p, env, from, stack, o, idx);
        },
        Term::Variable(name) => {
            let idx = index_of(c.var_names, name);
            lemma_index_of(c.var_names, name);
            assert(p.instructions[from] == d.instructions[from]);
            assert(p.instructions[from + 1] == d.instructions[from + 1]);
            assert(p.instructions[from + 2] == d.instructions[from + 2]);
            assert(p.var_names[idx] == d.var_names[idx]);
            assert forall|j: int| 0 <= j < idx implies p.var_names[j] != name by {
                assert(p.var_names[j] == c.var_names[j]);
            }
            lemma_index_of_is(p.var_names, name, idx);
            lemma_peak_load(p, env, from, stack, o, idx);
        },
        Term::Binary(op, l, r) => {
            let c1 = lower(*l, c)->Ok_0;
            let c2 = lower(*r, c1)->Ok_0;
            lemma_lower_consistent(*l, c);
            lemma_lower_consistent(*r, c1);
            lemma_extends_trans(c2, d, p);
            lemma_extends_trans(c1, c2, p);
            lemma_depth_positive(*r);
            lemma_lower_peak(*l, c, p, env, stack, o);
            if let Ok(a) = value(*l, p.var_names, env, o) {
                lemma_lower_peak(*r, c1, p, env, stack.push(a), o);
                if let Ok(b) = value(*r, p.var_names, env, o) {
                    let at = c2.instructions.len() as int;
                    assert(p.instructions[at] == d.instructions[at]);
                    lemma_peak_infix(p, env, at, stack, op, a, b, o);
                }
            }
        },
        Term::Neg(e) => {
            let c1 = lower(*e, c)->Ok_0;
            lemma_lower_consistent(*e, c);
            lemma_extends_trans(c1, d, p);
            lemma_lower_peak(*e, c, p, env, stack, o);
            if let Ok(a) = value(*e, p.var_names, env, o) {
                let at = c1.instructions.len() as int;
                assert(p.instructions[at] == d.instructions[at]);
                lemma_peak_neg(p, env, at, stack, a, o);
            }
        },
        Term::Call(f, args) => {
            let c1 = lower_all(args, c)->Ok_0;
            lemma_lower_all_consistent(args, c);
            let idx = index_of(c1.func_names, f);
            lemma_index_of(c1.func_names, f);
            lemma_extends_trans(c1, d, p);
            lemma_lower_all_peak(args, c, p, env, stack, o);
            lemma_values_len(args, p.var_names, env, o);
            lemma_depth_all_covers(args);
            if let Ok(vs) = values(args, p.var_names, env, o) {
                let at = c1.instructions.len() as int;
                assert(p.instructions[at] == d.instructions[at]);
                assert(p.instructions[at + 1] == d.instructions[at + 1]);
                assert(p.instructions[at + 2] == d.instructions[at + 2]);
                assert(p.instructions[at + 3] == d.instructions[at + 3]);
                assert(p.func_table[idx] == d.func_table[idx]);
                assert(d.func_table[idx] == Builtin::named(f));
                lemma_peak_call(p, env, at, stack, vs, o, idx);
            }
        },
    }
}

/// As `lemma_lower_peak`, of a list of trees.
pub proof fn lemma_lower_all_peak(
    args: Seq<Term>,
    c: Code,
    p: Code,
    env: Seq<u64>,
    stack: Seq<u64>,
    o: Oracle,
)
    requires
        c.consistent(),
        lower_all(args, c) matches Ok(d) && p.extends(d),
    ensures
        ({
            let d = lower_all(args, c)->Ok_0;
            match values(args, p.var_names, env, o) {
                Ok(vs) => peak(p, env, c.instructions.len() as int, stack, o) <= larger(
                    stack.len() + depth_all(args),
                    peak(p, env, d.instructions.len() as int, stack + vs, o),
                ),
                Err(e) => peak(p, env, c.instructions.len() as int, stack, o) <= stack.len()
                    + depth_all(args),
            }
        }),
    decreases args,
{
    if args.len() == 0 {
        assert(stack + Seq::<u64>::empty() =~= stack);
    } else {
        let c1 = lower_all(args.drop_last(), c)->Ok_0;
        let d = lower(args.last(), c1)->Ok_0;
        lemma_lower_all_consistent(args.drop_last(), c);
        lemma_lower_consistent(args.last(), c1);
        lemma_extends_trans(c1, d, p);
        lemma_lower_all_peak(args.drop_last(), c, p, env, stack, o);
        lemma_values_len(args.drop_last(), p.var_names, env, o);
        if let Ok(vs) = values(args.drop_last(), p.var_names, env, o) {
            lemma_lower_peak(args.last(), c1, p, env, stack + vs, o);
            if let Ok(v) = value(args.last(), p.var_names, env, o) {
                assert((stack + vs).push(v) =~= stack + vs.push(v));
            }
        }
    }
}

/// While a tree lowered into an empty program is evaluated, the stack never
/// holds more values than the tree's depth.
pub proof fn theorem_stack_stays_within_depth(t: Term, env: Seq<u64>, o: Oracle)
    requires
        lower(t, Code::empty()) is Ok,
    ensures
        peak(lower(t, Code::empty())->Ok_0, env, 0, Seq::empty(), o) <= depth(t),
{
    let p = lower(t, Code::empty())->Ok_0;
    lemma_lower_peak(t, Code::empty(), p, env, Seq::empty(), o);
    lemma_depth_positive(t);
}

} // verus!
