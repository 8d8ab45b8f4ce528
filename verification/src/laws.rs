//! What holds of the engine as a whole: laws that relate its stages, each
//! proved from the definitions that the stages are proved to compute.

use crate::arith::{is_zero, negated, Oracle, Query, INFINITY, ONE, SIGN_BIT, ZERO};
use crate::ast::{BinaryOp, Term};
use crate::bytecode::{Builtin, Code, OpCode, Program};
use crate::compiler::{
    compile_term, high, literal, literal_zero, low, lower, lower_all, optimize, optimize_all,
    simplify, MAX_ARGS,
};
use crate::compiles;
use crate::correctness::{
    depth, lemma_value_fails_by_division_only, peak, theorem_lowering_is_correct,
    theorem_stack_stays_within_depth, value, values,
};
use crate::error::{Error, ErrorKind};
use crate::parser::{
    advance, ahead, climb, ends_expression, expression, infix_op, infix_power, prefix, Cursor,
    Failure,
};
use crate::pool::{distinct, index_of, lemma_index_of, lemma_index_of_push};
use crate::token::Symbol;
use crate::vm::{evaluate, run};
use vstd::prelude::*;

verus! {

/// The pool `pool` after each value of `s` has been added in order, where
/// the pool did not hold it yet.
pub open spec fn interned<T>(pool: Seq<T>, s: Seq<T>) -> Seq<T>
    decreases s.len(),
{
    if s.len() == 0 {
        pool
    } else {
        let q = interned(pool, s.drop_last());
        if index_of(q, s.last()) < q.len() {
            q
        } else {
            q.push(s.last())
        }
    }
}

/// The values of `s`, each once, in the order in which they first occur.
pub open spec fn first_occurrences<T>(s: Seq<T>) -> Seq<T> {
    interned(Seq::empty(), s)
}

/// The value occurs in the sequence.
pub open spec fn occurs<T>(s: Seq<T>, x: T) -> bool {
    index_of(s, x) < s.len()
}

/// The numeric literals of a tree, in the order in which they are written.
pub open spec fn literals(t: Term) -> Seq<u64>
    decreases t,
{
    match t {
        Term::Number(n) => seq![n],
        Term::Variable(_) => Seq::empty(),
        Term::Binary(_, l, r) => literals(*l) + literals(*r),
        Term::Neg(e) => literals(*e),
        Term::Call(_, args) => all_literals(args),
    }
}

/// The numeric literals of a list of trees, in order.
pub open spec fn all_literals(args: Seq<Term>) -> Seq<u64>
    decreases args,
{
    if args.len() == 0 {
        Seq::empty()
    } else {
        all_literals(args.drop_last()) + literals(args.last())
    }
}

/// The variable references of a tree, in the order in which they are
/// written.
pub open spec fn variables(t: Term) -> Seq<Seq<char>>
    decreases t,
{
    match t {
        Term::Number(_) => Seq::empty(),
        Term::Variable(name) => seq![name],
        Term::Binary(_, l, r) => variables(*l) + variables(*r),
        Term::Neg(e) => variables(*e),
        Term::Call(_, args) => all_variables(args),
    }
}

/// The variable references of a list of trees, in order.
pub open spec fn all_variables(args: Seq<Term>) -> Seq<Seq<char>>
    decreases args,
{
    if args.len() == 0 {
        Seq::empty()
    } else {
        all_variables(args.drop_last()) + variables(args.last())
    }
}

/// The function names of a tree, in the order in which their calls are
/// completed: those within the arguments of a call come before its own.
pub open spec fn functions(t: Term) -> Seq<Seq<char>>
    decreases t,
{
    match t {
        Term::Number(_) => Seq::empty(),
        Term::Variable(_) => Seq::empty(),
        Term::Binary(_, l, r) => functions(*l) + functions(*r),
        Term::Neg(e) => functions(*e),
        Term::Call(f, args) => all_functions(args).push(f),
    }
}

/// The function names of a list of trees, in order.
pub open spec fn all_functions(args: Seq<Term>) -> Seq<Seq<char>>
    decreases args,
{
    if args.len() == 0 {
        Seq::empty()
    } else {
        all_functions(args.drop_last()) + functions(args.last())
    }
}

/// Adding the values of two sequences in turn is adding those of their
/// concatenation.
pub proof fn lemma_interned_concat<T>(pool: Seq<T>, a: Seq<T>, b: Seq<T>)
    ensures
        interned(pool, a + b) == interned(interned(pool, a), b),
    decreases b.len(),
{
    if b.len() == 0 {
        assert(a + b =~= a);
    } else {
        assert((a + b).drop_last() =~= a + b.drop_last());
        assert((a + b).last() == b.last());
        lemma_interned_concat(pool, a, b.drop_last());
    }
}

/// Adding one value.
pub proof fn lemma_interned_one<T>(pool: Seq<T>, x: T)
    ensures
        interned(pool, seq![x]) == if index_of(pool, x) < pool.len() {
            pool
        } else {
            pool.push(x)
        },
{
    assert(seq![x].drop_last() =~= Seq::<T>::empty());
    assert(interned(pool, seq![x].drop_last()) == pool);
}

/// Lowering a tree adds to each pool of
/// the program the tree's literals, variables and function names, each
/// where the pool lacks it, in the order in which the tree holds them.
pub proof fn lemma_lower_pools(t: Term, c: Code)
    ensures
        lower(t, c) matches Ok(d) ==> {
            &&& d.constants == interned(c.constants, literals(t))
            &&& d.var_names == interned(c.var_names, variables(t))
            &&& d.func_names == interned(c.func_names, functions(t))
        },
    decreases t,
{
    match t {
        Term::Number(n) => {
            lemma_interned_one(c.constants, n);
        },
        Term::Variable(name) => {
            lemma_interned_one(c.var_names, name);
        },
        Term::Binary(op, l, r) => {
            lemma_lower_pools(*l, c);
            if let Ok(c1) = lower(*l, c) {
                lemma_lower_pools(*r, c1);
                lemma_interned_concat(c.constants, literals(*l), literals(*r));
                lemma_interned_concat(c.var_names, variables(*l), variables(*r));
                lemma_interned_concat(c.func_names, functions(*l), functions(*r));
            }
        },
        Term::Neg(e) => {
            lemma_lower_pools(*e, c);
        },
        Term::Call(f, args) => {
            if args.len() <= MAX_ARGS {
                lemma_lower_all_pools(args, c);
                if let Ok(c1) = lower_all(args, c) {
                    lemma_interned_one(c1.func_names, f);
                    lemma_interned_concat(c.func_names, all_functions(args), seq![f]);
                    assert(all_functions(args) + seq![f] =~= all_functions(args).push(f));
                }
            }
        },
    }
}

/// As `lemma_lower_pools`, of a list of trees.
pub proof fn lemma_lower_all_pools(args: Seq<Term>, c: Code)
    ensures
        lower_all(args, c) matches Ok(d) ==> {
            &&& d.constants == interned(c.constants, all_literals(args))
            &&& d.var_names == interned(c.var_names, all_variables(args))
            &&& d.func_names == interned(c.func_names, all_functions(args))
        },
    decreases args,
{
    if args.len() > 0 {
        lemma_lower_all_pools(args.drop_last(), c);
        if let Ok(c1) = lower_all(args.drop_last(), c) {
            lemma_lower_pools(args.last(), c1);
            lemma_interned_concat(
                c.constants,
                all_literals(args.drop_last()),
                literals(args.last()),
            );
            lemma_interned_concat(
                c.var_names,
                all_variables(args.drop_last()),
                variables(args.last()),
            );
            lemma_interned_concat(
                c.func_names,
                all_functions(args.drop_last()),
                functions(args.last()),
            );
        }
    }
}

/// What `first_occurrences` holds: no value twice; exactly the values of
/// the sequence; and a value at the index that its first occurrence has
/// among the first occurrences of all values.
pub proof fn lemma_first_occurrences<T>(s: Seq<T>)
    ensures
        distinct(first_occurrences(s)),
        first_occurrences(s).len() <= s.len(),
        forall|x: T| occurs(first_occurrences(s), x) <==> occurs(s, x),
        forall|a: T, b: T|
            occurs(s, a) && occurs(s, b) ==> (index_of(s, a) < index_of(s, b) <==> index_of(
                first_occurrences(s),
                a,
            ) < index_of(first_occurrences(s), b)),
    decreases s.len(),
{
    let u = first_occurrences(s);
    if s.len() == 0 {
    } else {
        let init = s.drop_last();
        let y = s.last();
        let q = first_occurrences(init);
        lemma_first_occurrences(init);
        lemma_index_of(q, y);
        assert(s =~= init.push(y));
        assert(occurs(q, y) <==> occurs(init, y));
        assert forall|x: T| occurs(u, x) <==> occurs(s, x) by {
            lemma_index_of_push(init, y, x);
            lemma_index_of_push(q, y, x);
            lemma_index_of(q, x);
            lemma_index_of(init, x);
            assert(occurs(q, x) <==> occurs(init, x));
            assert(occurs(s, x) <==> (occurs(init, x) || x == y));
            if occurs(q, y) {
                assert(u == q);
            } else {
                assert(u == q.push(y));
                assert(occurs(u, x) <==> (occurs(q, x) || x == y));
            }
        }
        assert forall|a: T, b: T| occurs(s, a) && occurs(s, b) implies (index_of(s, a) < index_of(
            s,
            b,
        ) <==> index_of(u, a) < index_of(u, b)) by {
            lemma_index_of_push(init, y, a);
            lemma_index_of_push(init, y, b);
            lemma_index_of_push(q, y, a);
            lemma_index_of_push(q, y, b);
            lemma_index_of(q, a);
            lemma_index_of(q, b);
            lemma_index_of(init, a);
            lemma_index_of(init, b);
            assert(occurs(q, a) <==> occurs(init, a));
            assert(occurs(q, b) <==> occurs(init, b));
            if occurs(init, a) && occurs(init, b) {
                assert(index_of(init, a) < index_of(init, b) <==> index_of(q, a) < index_of(q, b));
            }
        }
        if index_of(q, y) >= q.len() {
            assert forall|i: int, j: int| 0 <= i < j < u.len() implies u[i] != u[j] by {
                if j == q.len() {
                    assert(q[i] != y);
                }
            }
        }
    }
}

/// The variable list of a compiled program
/// holds the variables of the rewritten tree, each once, in the order in
/// which they first occur in it; so do the constants pool with the tree's
/// numeric literals, and the list of function names with the names of its
/// calls.
pub proof fn law_pools_in_order_of_first_occurrence(t: Term, o: Oracle)
    ensures
        compile_term(t, o) matches Ok(p) ==> {
            &&& p.var_names == first_occurrences(variables(optimize(t, o)))
            &&& p.constants == first_occurrences(literals(optimize(t, o)))
            &&& p.func_names == first_occurrences(functions(optimize(t, o)))
        },
{
    lemma_lower_pools(optimize(t, o), Code::empty());
}

/// No pool of a compiled program holds a value
/// twice.
pub proof fn law_pools_hold_no_duplicates(t: Term, o: Oracle)
    ensures
        compile_term(t, o) matches Ok(p) ==> distinct(p.constants) && distinct(p.var_names)
            && distinct(p.func_names),
{
    law_pools_in_order_of_first_occurrence(t, o);
    lemma_first_occurrences(variables(optimize(t, o)));
    lemma_first_occurrences(literals(optimize(t, o)));
    lemma_first_occurrences(functions(optimize(t, o)));
}

/// Two results of compiling the
/// same text under the same arithmetic are the same: programs with equal
/// instruction streams and equal pools, or errors of the same kind at the
/// same place.
pub proof fn law_compilation_is_deterministic(
    s: Seq<char>,
    o: Oracle,
    first: Result<Program, Error>,
    second: Result<Program, Error>,
)
    requires
        compiles(first, s, o),
        compiles(second, s, o),
    ensures
        first matches Ok(p) ==> second matches Ok(q) && p@ == q@,
        first matches Err(e) ==> second matches Err(f) && e.kind@ == f.kind@ && e.position
            == f.position && e.source == f.source,
{
}

/// Evaluating the program
/// compiled from a tree, against any context that covers its variables,
/// gives the value of the rewritten tree: the same number, or the division
/// by zero. No other error occurs.
pub proof fn law_compiled_program_computes_the_rewritten_tree(t: Term, env: Seq<u64>, o: Oracle)
    requires
        compile_term(t, o) matches Ok(p) && env.len() >= p.var_names.len(),
    ensures
        ({
            let p = compile_term(t, o)->Ok_0;
            evaluate(p, env, o) == value(optimize(t, o), p.var_names, env, o)
        }),
{
    theorem_lowering_is_correct(optimize(t, o), env, o);
}

/// Its evaluation against
/// a context that covers its variables gives a number or fails by a
/// division by zero: it never underflows the stack, never names a function
/// outside its table, and never meets a byte that is no opcode.
pub proof fn law_compiled_program_fails_by_division_only(t: Term, env: Seq<u64>, o: Oracle)
    requires
        compile_term(t, o) matches Ok(p) && env.len() >= p.var_names.len(),
    ensures
        evaluate(compile_term(t, o)->Ok_0, env, o) matches Err(e) ==> e
            == ErrorKind::DivisionByZero,
{
    let p = compile_term(t, o)->Ok_0;
    law_compiled_program_computes_the_rewritten_tree(t, env, o);
    lemma_value_fails_by_division_only(optimize(t, o), p.var_names, env, o);
}

/// While a compiled program is evaluated, its stack never holds more
/// values than the depth of the rewritten tree, whatever the context and
/// the arithmetic. Every evaluation starts on an empty stack, a machine's
/// first and each later one, so the bound holds of each: a stack that has
/// once had room for that many values never needs to grow.
pub proof fn law_stack_depth_is_bounded(t: Term, env: Seq<u64>, o: Oracle)
    requires
        compile_term(t, o) is Ok,
    ensures
        peak(compile_term(t, o)->Ok_0, env, 0, Seq::empty(), o) <= depth(optimize(t, o)),
{
    theorem_stack_stays_within_depth(optimize(t, o), env, o);
}

/// The program that holds one constant and loads it: what a tree that is
/// rewritten to a literal is lowered to.
pub open spec fn constant_program(n: u64) -> Code {
    Code {
        instructions: seq![OpCode::LoadConst.byte(), 0u8, 0u8],
        constants: seq![n],
        ..Code::empty()
    }
}

/// A program that holds one constant and loads it evaluates to that
/// constant, against every context and under every arithmetic.
pub proof fn law_constant_program_evaluates_to_its_constant(n: u64, env: Seq<u64>, o: Oracle)
    ensures
        evaluate(constant_program(n), env, o) == Ok::<u64, ErrorKind>(n),
{
    let p = constant_program(n);
    assert(p.instructions[0] == 0u8 && p.instructions[1] == 0u8 && p.instructions[2] == 0u8);
    assert(Seq::<u64>::empty().push(n).len() == 1);
    reveal_with_fuel(run, 2);
}

/// The product of anything with a zero literal, on either side, is
/// compiled to the program that loads `+0.0`: it keeps no variable, and it
/// evaluates to `+0.0` whatever the context holds, NaN and the infinities
/// included.
pub proof fn law_product_with_zero_is_zero(
    x: Term,
    z: u64,
    zero_first: bool,
    env: Seq<u64>,
    o: Oracle,
)
    requires
        is_zero(z),
        !(optimize(x, o) is Number),
    ensures
        ({
            let t = if zero_first {
                Term::Binary(BinaryOp::Mul, Box::new(Term::Number(z)), Box::new(x))
            } else {
                Term::Binary(BinaryOp::Mul, Box::new(x), Box::new(Term::Number(z)))
            };
            &&& optimize(t, o) == Term::Number(ZERO)
            &&& compile_term(t, o) == Ok::<Code, ErrorKind>(constant_program(ZERO))
            &&& evaluate(constant_program(ZERO), env, o) == Ok::<u64, ErrorKind>(ZERO)
        }),
{
    law_constant_program_evaluates_to_its_constant(ZERO, env, o);
    let t = if zero_first {
        Term::Binary(BinaryOp::Mul, Box::new(Term::Number(z)), Box::new(x))
    } else {
        Term::Binary(BinaryOp::Mul, Box::new(x), Box::new(Term::Number(z)))
    };
    assert(optimize(Term::Number(z), o) == Term::Number(z));
    assert(optimize(t, o) == Term::Number(ZERO));
    let c = Code::empty();
    assert(index_of(c.constants, ZERO) == 0);
    let d = c.with_constant(ZERO).emit(seq![OpCode::LoadConst.byte(), high(0), low(0)]);
    assert(d.constants =~= seq![ZERO]);
    assert(d.instructions =~= seq![OpCode::LoadConst.byte(), 0u8, 0u8]);
    assert(lower(Term::Number(ZERO), c) == Ok::<Code, ErrorKind>(d));
    assert(d == constant_program(ZERO));
}

/// The bits of a double without its sign.
pub open spec fn magnitude(bits: u64) -> int {
    if bits >= SIGN_BIT {
        bits - SIGN_BIT
    } else {
        bits as int
    }
}

/// The double is a NaN: its exponent is all ones and its fraction is not
/// zero.
pub open spec fn is_nan(bits: u64) -> bool {
    magnitude(bits) > INFINITY
}

/// The double is neither a NaN nor an infinity.
pub open spec fn is_finite(bits: u64) -> bool {
    magnitude(bits) < INFINITY
}

/// The double is a number below zero, finite or infinite.
pub open spec fn is_negative(bits: u64) -> bool {
    bits > SIGN_BIT && !is_nan(bits)
}

/// Two doubles that are the same number: the same bits, zeros of either
/// sign, or NaNs of any payload.
pub open spec fn same(a: u64, b: u64) -> bool {
    a == b || (is_zero(a) && is_zero(b)) || (is_nan(a) && is_nan(b))
}

/// Two lists of doubles that are the same numbers, entry by entry.
pub open spec fn alike(u: Seq<u64>, v: Seq<u64>) -> bool {
    &&& u.len() == v.len()
    &&& forall|i: int| 0 <= i < u.len() ==> same(#[trigger] u[i], v[i])
}

/// The arithmetic gives the same number for the same operands, whatever
/// the sign of a zero or the payload of a NaN among them. Two cases are
/// left out, in which the sign of a zero decides between the infinities: a
/// division by zero, which the engine never asks for, and a zero raised to
/// a negative power.
pub open spec fn regards_numbers_only(o: Oracle) -> bool {
    &&& forall|op: BinaryOp, a: u64, b: u64, c: u64, d: u64|
        same(a, c) && same(b, d) && !(op == BinaryOp::Div && is_zero(b)) && !(op == BinaryOp::Pow
            && is_zero(a) && is_negative(b)) ==> same(
            #[trigger] o(Query::Binary(op, a, b)),
            #[trigger] o(Query::Binary(op, c, d)),
        )
    &&& forall|f: Builtin, u: Seq<u64>, v: Seq<u64>|
        alike(u, v) ==> same(#[trigger] o(Query::Call(f, u)), #[trigger] o(Query::Call(f, v)))
}

/// The arithmetic obeys the identities that the rewriting relies on, as
/// the arithmetic of doubles does. With `z` a zero and any `x`, NaN and the
/// infinities among them: `x + z`, `z + x` and `x - z` are `x`, and `x ^ z`
/// is one; `x * 1`, `1 * x`, `x / 1` and `x ^ 1` are `x`. With `x` finite,
/// `x * z` and `z * x` are zero.
pub open spec fn obeys_identities(o: Oracle) -> bool {
    &&& forall|x: u64, z: u64|
        is_zero(z) ==> same(#[trigger] o(Query::Binary(BinaryOp::Add, x, z)), x)
    &&& forall|x: u64, z: u64|
        is_zero(z) ==> same(#[trigger] o(Query::Binary(BinaryOp::Add, z, x)), x)
    &&& forall|x: u64, z: u64|
        is_zero(z) ==> same(#[trigger] o(Query::Binary(BinaryOp::Sub, x, z)), x)
    &&& forall|x: u64, z: u64|
        is_zero(z) && is_finite(x) ==> same(#[trigger] o(Query::Binary(BinaryOp::Mul, x, z)), ZERO)
    &&& forall|x: u64, z: u64|
        is_zero(z) && is_finite(x) ==> same(#[trigger] o(Query::Binary(BinaryOp::Mul, z, x)), ZERO)
    &&& forall|x: u64, z: u64|
        is_zero(z) ==> same(#[trigger] o(Query::Binary(BinaryOp::Pow, x, z)), ONE)
    &&& forall|x: u64| same(#[trigger] o(Query::Binary(BinaryOp::Mul, x, ONE)), x)
    &&& forall|x: u64| same(#[trigger] o(Query::Binary(BinaryOp::Mul, ONE, x)), x)
    &&& forall|x: u64| same(#[trigger] o(Query::Binary(BinaryOp::Div, x, ONE)), x)
    &&& forall|x: u64| same(#[trigger] o(Query::Binary(BinaryOp::Pow, x, ONE)), x)
}

/// Two outcomes of evaluation that are the same: the same number, or the
/// same error.
pub open spec fn same_outcome(a: Result<u64, ErrorKind>, b: Result<u64, ErrorKind>) -> bool {
    match (a, b) {
        (Ok(x), Ok(y)) => same(x, y),
        (Err(e), Err(f)) => e == f,
        _ => false,
    }
}

/// Two outcomes of evaluating a list that are the same: the same numbers,
/// or the same error.
pub open spec fn same_outcomes(
    a: Result<Seq<u64>, ErrorKind>,
    b: Result<Seq<u64>, ErrorKind>,
) -> bool {
    match (a, b) {
        (Ok(u), Ok(v)) => alike(u, v),
        (Err(e), Err(f)) => e == f,
        _ => false,
    }
}

/// What an infix node gives for the outcomes of its operands: the first
/// error of the two, the division by zero, or what the arithmetic gives.
pub open spec fn joined(
    op: BinaryOp,
    left: Result<u64, ErrorKind>,
    right: Result<u64, ErrorKind>,
    o: Oracle,
) -> Result<u64, ErrorKind> {
    match left {
        Err(e) => Err(e),
        Ok(a) => match right {
            Err(e) => Err(e),
            Ok(b) => if op == BinaryOp::Div && is_zero(b) {
                Err(ErrorKind::DivisionByZero)
            } else {
                Ok(o(Query::Binary(op, a, b)))
            },
        },
    }
}

/// The rewriting of one infix node can keep the node's outcome. `left` and
/// `right` are the rewritten operands, `l` and `r` the outcomes of the
/// operands as written.
///
/// - An operand that `x * 0` or `0 * x` drops has a finite value: a NaN or
///   an infinity times zero is NaN, and an operand that fails is gone with
///   its failure.
/// - An operand that `x ^ 0` drops has a value.
/// - A zero that is raised to a negative power has the same sign with and
///   without rewriting: its sign decides between the infinities.
pub open spec fn node_is_regular(
    op: BinaryOp,
    left: Term,
    right: Term,
    l: Result<u64, ErrorKind>,
    r: Result<u64, ErrorKind>,
    rewritten_left: Result<u64, ErrorKind>,
) -> bool {
    let both = literal(left) is Some && literal(right) is Some;
    &&& op == BinaryOp::Mul && !both && literal_zero(left) ==> r is Ok && is_finite(r->Ok_0)
    &&& op == BinaryOp::Mul && !both && literal_zero(right) ==> l is Ok && is_finite(l->Ok_0)
    &&& op == BinaryOp::Pow && !both && literal_zero(right) ==> l is Ok
    &&& op == BinaryOp::Pow && l is Ok && r is Ok && is_zero(l->Ok_0) && is_negative(r->Ok_0)
        ==> rewritten_left == l
}

/// The rewriting can keep the outcome of the tree: every infix node of it
/// is regular.
pub open spec fn regular(t: Term, vars: Seq<Seq<char>>, env: Seq<u64>, o: Oracle) -> bool
    decreases t,
{
    match t {
        Term::Binary(op, l, r) => {
            &&& regular(*l, vars, env, o)
            &&& regular(*r, vars, env, o)
            &&& node_is_regular(
                op,
                optimize(*l, o),
                optimize(*r, o),
                value(*l, vars, env, o),
                value(*r, vars, env, o),
                value(optimize(*l, o), vars, env, o),
            )
        },
        Term::Neg(e) => regular(*e, vars, env, o),
        Term::Call(_, args) => all_regular(args, vars, env, o),
        _ => true,
    }
}

/// Every tree of the list is regular.
pub open spec fn all_regular(
    args: Seq<Term>,
    vars: Seq<Seq<char>>,
    env: Seq<u64>,
    o: Oracle,
) -> bool
    decreases args,
{
    if args.len() == 0 {
        true
    } else {
        all_regular(args.drop_last(), vars, env, o) && regular(args.last(), vars, env, o)
    }
}

/// The value of an infix node is what joins the outcomes of its operands.
pub proof fn lemma_value_joins(
    op: BinaryOp,
    l: Term,
    r: Term,
    vars: Seq<Seq<char>>,
    env: Seq<u64>,
    o: Oracle,
)
    ensures
        value(Term::Binary(op, Box::new(l), Box::new(r)), vars, env, o) == joined(
            op,
            value(l, vars, env, o),
            value(r, vars, env, o),
            o,
        ),
{
}

/// The rewriting of one regular infix node keeps its outcome, where the
/// rewritten operands keep theirs.
pub proof fn lemma_rewritten_node_keeps_the_outcome(
    op: BinaryOp,
    left: Term,
    right: Term,
    l: Result<u64, ErrorKind>,
    r: Result<u64, ErrorKind>,
    vars: Seq<Seq<char>>,
    env: Seq<u64>,
    o: Oracle,
)
    requires
        regards_numbers_only(o),
        obeys_identities(o),
        same_outcome(value(left, vars, env, o), l),
        same_outcome(value(right, vars, env, o), r),
        node_is_regular(op, left, right, l, r, value(left, vars, env, o)),
    ensures
        same_outcome(value(simplify(op, left, right, o), vars, env, o), joined(op, l, r, o)),
{
    let vl = value(left, vars, env, o);
    let vr = value(right, vars, env, o);
    let kept = Term::Binary(op, Box::new(left), Box::new(right));
    lemma_value_joins(op, left, right, vars, env, o);
    assert(literal(left) matches Some(n) ==> vl == Ok::<u64, ErrorKind>(n));
    assert(literal(right) matches Some(n) ==> vr == Ok::<u64, ErrorKind>(n));
    assert(!is_zero(ONE) && !is_nan(ONE) && is_finite(ZERO));
    if l is Ok && r is Ok {
        let a = l->Ok_0;
        let b = r->Ok_0;
        let c = vl->Ok_0;
        let d = vr->Ok_0;
        assert(same(c, a) && same(d, b));
        if op == BinaryOp::Div && is_zero(b) {
            assert(is_zero(d));
        } else {
            assert(op == BinaryOp::Div ==> !is_zero(d));
            // the node as it stands, and the folded node
            if op == BinaryOp::Pow && is_zero(a) && is_negative(b) {
                assert(c == a && d == b);
            }
            assert(same(o(Query::Binary(op, c, d)), o(Query::Binary(op, a, b))));
            if literal_zero(left) {
                assert(is_zero(a) && is_zero(c));
            }
            if literal_zero(right) {
                assert(is_zero(b) && is_zero(d));
            }
            if literal(left) == Some(ONE) {
                assert(a == ONE);
            }
            if literal(right) == Some(ONE) {
                assert(b == ONE);
            }
        }
    }
}

/// Negation keeps two doubles the same number.
pub proof fn lemma_negated_is_the_same(a: u64, b: u64)
    requires
        same(a, b),
    ensures
        same(negated(a), negated(b)),
{
}

/// Under an arithmetic that regards numbers only and obeys the identities,
/// the rewriting keeps the outcome of every regular tree: the rewritten
/// tree fails where the tree as written fails, with the same error, and
/// else evaluates to the same number.
pub proof fn law_rewriting_keeps_the_outcome(
    t: Term,
    vars: Seq<Seq<char>>,
    env: Seq<u64>,
    o: Oracle,
)
    requires
        regards_numbers_only(o),
        obeys_identities(o),
        regular(t, vars, env, o),
    ensures
        same_outcome(value(optimize(t, o), vars, env, o), value(t, vars, env, o)),
    decreases t,
{
    match t {
        Term::Binary(op, l, r) => {
            law_rewriting_keeps_the_outcome(*l, vars, env, o);
            law_rewriting_keeps_the_outcome(*r, vars, env, o);
            lemma_rewritten_node_keeps_the_outcome(
                op,
                optimize(*l, o),
                optimize(*r, o),
                value(*l, vars, env, o),
                value(*r, vars, env, o),
                vars,
                env,
                o,
            );
            lemma_value_joins(op, *l, *r, vars, env, o);
        },
        Term::Neg(e) => {
            law_rewriting_keeps_the_outcome(*e, vars, env, o);
            let inner = optimize(*e, o);
            if let Ok(a) = value(*e, vars, env, o) {
                lemma_negated_is_the_same(value(inner, vars, env, o)->Ok_0, a);
            }
        },
        Term::Call(f, args) => {
            lemma_rewriting_keeps_the_outcomes(args, vars, env, o);
        },
        _ => {},
    }
}

/// As `law_rewriting_keeps_the_outcome`, of a list of trees.
pub proof fn lemma_rewriting_keeps_the_outcomes(
    args: Seq<Term>,
    vars: Seq<Seq<char>>,
    env: Seq<u64>,
    o: Oracle,
)
    requires
        regards_numbers_only(o),
        obeys_identities(o),
        all_regular(args, vars, env, o),
    ensures
        same_outcomes(values(optimize_all(args, o), vars, env, o), values(args, vars, env, o)),
    decreases args,
{
    if args.len() > 0 {
        lemma_rewriting_keeps_the_outcomes(args.drop_last(), vars, env, o);
        law_rewriting_keeps_the_outcome(args.last(), vars, env, o);
        let done = optimize_all(args.drop_last(), o);
        let last = optimize(args.last(), o);
        assert(done.push(last).drop_last() =~= done);
    }
}

/// The context of a program with the variables `vars` in which each
/// variable holds the value that `bound_to` gives its name.
pub open spec fn context_for(vars: Seq<Seq<char>>, bound_to: spec_fn(Seq<char>) -> u64) -> Seq<
    u64,
> {
    Seq::new(vars.len(), |i: int| bound_to(vars[i]))
}

/// Every variable of the tree is among `vars`.
pub open spec fn covers(vars: Seq<Seq<char>>, t: Term) -> bool {
    forall|name: Seq<char>| #[trigger] occurs(variables(t), name) ==> occurs(vars, name)
}

/// Every variable of the trees of the list is among `vars`.
pub open spec fn covers_all(vars: Seq<Seq<char>>, args: Seq<Term>) -> bool {
    forall|name: Seq<char>| #[trigger] occurs(all_variables(args), name) ==> occurs(vars, name)
}

/// A value occurs in a concatenation where it occurs in one of its parts.
pub proof fn lemma_occurs_in_concat<T>(a: Seq<T>, b: Seq<T>, x: T)
    ensures
        occurs(a + b, x) <==> occurs(a, x) || occurs(b, x),
    decreases b.len(),
{
    if b.len() == 0 {
        assert(a + b =~= a);
    } else {
        let init = b.drop_last();
        assert(a + b =~= (a + init).push(b.last()));
        assert(b =~= init.push(b.last()));
        lemma_occurs_in_concat(a, init, x);
        lemma_index_of_push(a + init, b.last(), x);
        lemma_index_of_push(init, b.last(), x);
        lemma_index_of(a + init, x);
        lemma_index_of(init, x);
    }
}

/// What holds every value of a concatenation holds every value of its
/// parts.
pub proof fn lemma_covers_the_parts<T>(vars: Seq<T>, a: Seq<T>, b: Seq<T>)
    requires
        forall|x: T| #[trigger] occurs(a + b, x) ==> occurs(vars, x),
    ensures
        forall|x: T| #[trigger] occurs(a, x) ==> occurs(vars, x),
        forall|x: T| #[trigger] occurs(b, x) ==> occurs(vars, x),
{
    assert forall|x: T| #[trigger] occurs(a, x) implies occurs(vars, x) by {
        lemma_occurs_in_concat(a, b, x);
        assert(occurs(a + b, x));
    }
    assert forall|x: T| #[trigger] occurs(b, x) implies occurs(vars, x) by {
        lemma_occurs_in_concat(a, b, x);
        assert(occurs(a + b, x));
    }
}

/// The value of a tree depends on the values of its variables alone, not
/// on the indices at which a context holds them.
pub proof fn lemma_value_by_name(
    t: Term,
    first: Seq<Seq<char>>,
    second: Seq<Seq<char>>,
    bound_to: spec_fn(Seq<char>) -> u64,
    o: Oracle,
)
    requires
        covers(first, t),
        covers(second, t),
    ensures
        value(t, first, context_for(first, bound_to), o) == value(
            t,
            second,
            context_for(second, bound_to),
            o,
        ),
    decreases t,
{
    match t {
        Term::Variable(name) => {
            assert(seq![name].drop_last() =~= Seq::<Seq<char>>::empty());
            assert(index_of(seq![name].drop_last(), name) == 0);
            assert(occurs(variables(t), name));
            lemma_index_of(first, name);
            lemma_index_of(second, name);
            let i = index_of(first, name);
            let j = index_of(second, name);
            assert(occurs(first, name) && occurs(second, name));
            assert(context_for(first, bound_to)[i] == bound_to(first[i]));
            assert(context_for(second, bound_to)[j] == bound_to(second[j]));
        },
        Term::Binary(op, l, r) => {
            assert(variables(t) == variables(*l) + variables(*r));
            lemma_covers_the_parts(first, variables(*l), variables(*r));
            lemma_covers_the_parts(second, variables(*l), variables(*r));
            lemma_value_by_name(*l, first, second, bound_to, o);
            lemma_value_by_name(*r, first, second, bound_to, o);
        },
        Term::Neg(e) => {
            assert(variables(t) == variables(*e));
            lemma_value_by_name(*e, first, second, bound_to, o);
        },
        Term::Call(f, args) => {
            assert(variables(t) == all_variables(args));
            lemma_values_by_name(args, first, second, bound_to, o);
        },
        _ => {},
    }
}

/// As `lemma_value_by_name`, of a list of trees.
pub proof fn lemma_values_by_name(
    args: Seq<Term>,
    first: Seq<Seq<char>>,
    second: Seq<Seq<char>>,
    bound_to: spec_fn(Seq<char>) -> u64,
    o: Oracle,
)
    requires
        covers_all(first, args),
        covers_all(second, args),
    ensures
        values(args, first, context_for(first, bound_to), o) == values(
            args,
            second,
            context_for(second, bound_to),
            o,
        ),
    decreases args,
{
    if args.len() > 0 {
        assert(all_variables(args) == all_variables(args.drop_last()) + variables(args.last()));
        lemma_covers_the_parts(first, all_variables(args.drop_last()), variables(args.last()));
        lemma_covers_the_parts(second, all_variables(args.drop_last()), variables(args.last()));
        lemma_values_by_name(args.drop_last(), first, second, bound_to, o);
        lemma_value_by_name(args.last(), first, second, bound_to, o);
    }
}

/// The rewriting adds no variable to a tree.
pub proof fn lemma_rewriting_adds_no_variable(t: Term, o: Oracle, name: Seq<char>)
    requires
        occurs(variables(optimize(t, o)), name),
    ensures
        occurs(variables(t), name),
    decreases t,
{
    lemma_index_of(Seq::<Seq<char>>::empty(), name);
    match t {
        Term::Binary(op, l, r) => {
            let left = optimize(*l, o);
            let right = optimize(*r, o);
            lemma_occurs_in_concat(variables(left), variables(right), name);
            lemma_occurs_in_concat(variables(*l), variables(*r), name);
            if occurs(variables(left), name) {
                lemma_rewriting_adds_no_variable(*l, o, name);
            }
            if occurs(variables(right), name) {
                lemma_rewriting_adds_no_variable(*r, o, name);
            }
        },
        Term::Neg(e) => {
            let inner = optimize(*e, o);
            if occurs(variables(inner), name) {
                lemma_rewriting_adds_no_variable(*e, o, name);
            }
        },
        Term::Call(f, args) => {
            lemma_rewriting_adds_no_variables(args, o, name);
        },
        _ => {},
    }
}

/// As `lemma_rewriting_adds_no_variable`, of a list of trees.
pub proof fn lemma_rewriting_adds_no_variables(args: Seq<Term>, o: Oracle, name: Seq<char>)
    requires
        occurs(all_variables(optimize_all(args, o)), name),
    ensures
        occurs(all_variables(args), name),
    decreases args,
{
    lemma_index_of(Seq::<Seq<char>>::empty(), name);
    if args.len() > 0 {
        let done = optimize_all(args.drop_last(), o);
        let last = optimize(args.last(), o);
        assert(done.push(last).drop_last() =~= done);
        lemma_occurs_in_concat(all_variables(done), variables(last), name);
        lemma_occurs_in_concat(all_variables(args.drop_last()), variables(args.last()), name);
        if occurs(all_variables(done), name) {
            lemma_rewriting_adds_no_variables(args.drop_last(), o, name);
        }
        if occurs(variables(last), name) {
            lemma_rewriting_adds_no_variable(args.last(), o, name);
        }
    }
}

/// The program compiled from a tree, with the rewriting, has the outcome
/// of the program lowered from the tree as it is written, where each is
/// evaluated against the context that binds its own variables to the same
/// values by name: the same number, or the same error. This holds under an
/// arithmetic that regards numbers only and obeys the identities, of every
/// regular tree.
pub proof fn law_rewritten_program_keeps_the_outcome(
    t: Term,
    bound_to: spec_fn(Seq<char>) -> u64,
    o: Oracle,
)
    requires
        regards_numbers_only(o),
        obeys_identities(o),
        lower(t, Code::empty()) is Ok,
        compile_term(t, o) is Ok,
        regular(
            t,
            lower(t, Code::empty())->Ok_0.var_names,
            context_for(lower(t, Code::empty())->Ok_0.var_names, bound_to),
            o,
        ),
    ensures
        ({
            let written = lower(t, Code::empty())->Ok_0;
            let rewritten = compile_term(t, o)->Ok_0;
            same_outcome(
                evaluate(rewritten, context_for(rewritten.var_names, bound_to), o),
                evaluate(written, context_for(written.var_names, bound_to), o),
            )
        }),
{
    let written = lower(t, Code::empty())->Ok_0;
    let rewritten = compile_term(t, o)->Ok_0;
    let better = optimize(t, o);
    let first = written.var_names;
    let second = rewritten.var_names;
    theorem_lowering_is_correct(t, context_for(first, bound_to), o);
    theorem_lowering_is_correct(better, context_for(second, bound_to), o);
    law_rewriting_keeps_the_outcome(t, first, context_for(first, bound_to), o);
    lemma_lower_pools(t, Code::empty());
    lemma_lower_pools(better, Code::empty());
    lemma_first_occurrences(variables(t));
    lemma_first_occurrences(variables(better));
    assert forall|name: Seq<char>| occurs(variables(better), name) implies occurs(
        first,
        name,
    ) by {
        lemma_rewriting_adds_no_variable(t, o, name);
    }
    lemma_value_by_name(better, first, second, bound_to, o);
}

/// The tree that a token is by itself: a number, or a name that no `(`
/// follows.
pub open spec fn atom(t: Symbol) -> Option<Term> {
    match t {
        Symbol::Number(n) => Some(Term::Number(n)),
        Symbol::Identifier(name) => Some(Term::Variable(name)),
        _ => None,
    }
}

/// In the text, the token of `next` follows that of `cur`.
pub open spec fn follows(s: Seq<char>, cur: Cursor, next: Cursor, o: Oracle) -> bool {
    advance(s, cur, o) == Ok::<Cursor, Failure>(next) && ahead(s, cur, next)
}

/// A number, or a name that no `(` follows, is an expression by itself.
pub proof fn lemma_atom_is_a_prefix(s: Seq<char>, cur: Cursor, next: Cursor, o: Oracle)
    requires
        atom(cur.token) is Some,
        follows(s, cur, next, o),
        !(next.token is LParen),
    ensures
        prefix(s, cur, o) == Ok::<(Term, Cursor), Failure>((atom(cur.token)->0, next)),
{
}

/// An operator that binds more loosely than `min_bp`, or a token that ends
/// an expression, ends the climb.
pub proof fn lemma_climb_stops(s: Seq<char>, left: Term, cur: Cursor, min_bp: u8, o: Oracle)
    requires
        ends_expression(cur.token) || infix_power(cur.token).0 < min_bp,
    ensures
        climb(s, left, cur, min_bp, o) == Ok::<(Term, Cursor), Failure>((left, cur)),
{
}

/// An operator that binds at least as tightly as `min_bp` takes the
/// expression to its right, parsed at its right binding power, and the
/// climb goes on behind it.
pub proof fn lemma_climb_takes_operator(
    s: Seq<char>,
    left: Term,
    cur: Cursor,
    next: Cursor,
    right: Term,
    after: Cursor,
    min_bp: u8,
    o: Oracle,
)
    requires
        infix_op(cur.token) is Some,
        infix_power(cur.token).0 >= min_bp,
        follows(s, cur, next, o),
        expression(s, next, infix_power(cur.token).1, o) == Ok::<(Term, Cursor), Failure>(
            (right, after),
        ),
        ahead(s, cur, after),
    ensures
        climb(s, left, cur, min_bp, o) == climb(
            s,
            Term::Binary(infix_op(cur.token)->0, Box::new(left), Box::new(right)),
            after,
            min_bp,
            o,
        ),
{
}

/// An atom at the end of an expression, or before an operator that binds
/// more loosely than `min_bp`, is the whole expression.
pub proof fn lemma_atom_is_an_expression(
    s: Seq<char>,
    cur: Cursor,
    next: Cursor,
    min_bp: u8,
    o: Oracle,
)
    requires
        atom(cur.token) is Some,
        follows(s, cur, next, o),
        ends_expression(next.token) || (infix_op(next.token) is Some && infix_power(next.token).0
            < min_bp),
    ensures
        expression(s, cur, min_bp, o) == Ok::<(Term, Cursor), Failure>((atom(cur.token)->0, next)),
{
    lemma_atom_is_a_prefix(s, cur, next, o);
    lemma_climb_stops(s, atom(cur.token)->0, next, min_bp, o);
}

/// The tokens `a ⊕ b ⊗ c`, followed by the end of an expression, where the
/// second operator binds more tightly than the first one's right side asks
/// for: the second operator takes `b`.
pub proof fn lemma_tighter_operator_takes_the_middle(
    s: Seq<char>,
    a: Cursor,
    first: Cursor,
    b: Cursor,
    second: Cursor,
    c: Cursor,
    end: Cursor,
    o: Oracle,
)
    requires
        atom(a.token) is Some && atom(b.token) is Some && atom(c.token) is Some,
        infix_op(first.token) is Some && infix_op(second.token) is Some,
        infix_power(second.token).0 >= infix_power(first.token).1,
        ends_expression(end.token),
        follows(s, a, first, o),
        follows(s, first, b, o),
        follows(s, b, second, o),
        follows(s, second, c, o),
        follows(s, c, end, o),
    ensures
        expression(s, a, 0, o) == Ok::<(Term, Cursor), Failure>(
            (
                Term::Binary(
                    infix_op(first.token)->0,
                    Box::new(atom(a.token)->0),
                    Box::new(
                        Term::Binary(
                            infix_op(second.token)->0,
                            Box::new(atom(b.token)->0),
                            Box::new(atom(c.token)->0),
                        ),
                    ),
                ),
                end,
            ),
        ),
{
    let ta = atom(a.token)->0;
    let tb = atom(b.token)->0;
    let tc = atom(c.token)->0;
    let inner = Term::Binary(infix_op(second.token)->0, Box::new(tb), Box::new(tc));
    let whole = Term::Binary(infix_op(first.token)->0, Box::new(ta), Box::new(inner));
    let right_bp = infix_power(first.token).1;
    // c
    lemma_atom_is_an_expression(s, c, end, infix_power(second.token).1, o);
    // b ⊗ c
    lemma_atom_is_a_prefix(s, b, second, o);
    lemma_climb_takes_operator(s, tb, second, c, tc, end, right_bp, o);
    lemma_climb_stops(s, inner, end, right_bp, o);
    assert(expression(s, b, right_bp, o) == Ok::<(Term, Cursor), Failure>((inner, end)));
    // a ⊕ (b ⊗ c)
    lemma_atom_is_a_prefix(s, a, first, o);
    lemma_climb_takes_operator(s, ta, first, b, inner, end, 0, o);
    lemma_climb_stops(s, whole, end, 0, o);
}

/// The tokens `a ⊗ b ⊕ c`, followed by the end of an expression, where the
/// second operator binds more loosely than the first one's right side asks
/// for: the first operator takes `b`.
pub proof fn lemma_looser_operator_leaves_the_middle(
    s: Seq<char>,
    a: Cursor,
    first: Cursor,
    b: Cursor,
    second: Cursor,
    c: Cursor,
    end: Cursor,
    o: Oracle,
)
    requires
        atom(a.token) is Some && atom(b.token) is Some && atom(c.token) is Some,
        infix_op(first.token) is Some && infix_op(second.token) is Some,
        infix_power(second.token).0 < infix_power(first.token).1,
        ends_expression(end.token),
        follows(s, a, first, o),
        follows(s, first, b, o),
        follows(s, b, second, o),
        follows(s, second, c, o),
        follows(s, c, end, o),
    ensures
        expression(s, a, 0, o) == Ok::<(Term, Cursor), Failure>(
            (
                Term::Binary(
                    infix_op(second.token)->0,
                    Box::new(
                        Term::Binary(
                            infix_op(first.token)->0,
                            Box::new(atom(a.token)->0),
                            Box::new(atom(b.token)->0),
                        ),
                    ),
                    Box::new(atom(c.token)->0),
                ),
                end,
            ),
        ),
{
    let ta = atom(a.token)->0;
    let tb = atom(b.token)->0;
    let tc = atom(c.token)->0;
    let inner = Term::Binary(infix_op(first.token)->0, Box::new(ta), Box::new(tb));
    let whole = Term::Binary(infix_op(second.token)->0, Box::new(inner), Box::new(tc));
    // b, up to the looser operator
    lemma_atom_is_an_expression(s, b, second, infix_power(first.token).1, o);
    // c
    lemma_atom_is_an_expression(s, c, end, infix_power(second.token).1, o);
    // (a ⊗ b) ⊕ c
    lemma_atom_is_a_prefix(s, a, first, o);
    lemma_climb_takes_operator(s, ta, first, b, tb, second, 0, o);
    lemma_climb_takes_operator(s, inner, second, c, tc, end, 0, o);
    lemma_climb_stops(s, whole, end, 0, o);
}

/// Wherever the tokens `a + b * c` stand as a whole
/// expression, with `a`, `b` and `c` numbers or variables, they are parsed
/// as `a + (b * c)`; the tokens `a * b + c` are parsed as `(a * b) + c`.
pub proof fn law_product_binds_tighter_than_sum(
    s: Seq<char>,
    a: Cursor,
    first: Cursor,
    b: Cursor,
    second: Cursor,
    c: Cursor,
    end: Cursor,
    o: Oracle,
)
    requires
        atom(a.token) is Some && atom(b.token) is Some && atom(c.token) is Some,
        ends_expression(end.token),
        follows(s, a, first, o),
        follows(s, first, b, o),
        follows(s, b, second, o),
        follows(s, second, c, o),
        follows(s, c, end, o),
    ensures
        first.token is Plus && second.token is Star ==> expression(s, a, 0, o) == Ok::<
            (Term, Cursor),
            Failure,
        >(
            (
                Term::Binary(
                    BinaryOp::Add,
                    Box::new(atom(a.token)->0),
                    Box::new(
                        Term::Binary(
                            BinaryOp::Mul,
                            Box::new(atom(b.token)->0),
                            Box::new(atom(c.token)->0),
                        ),
                    ),
                ),
                end,
            ),
        ),
        first.token is Star && second.token is Plus ==> expression(s, a, 0, o) == Ok::<
            (Term, Cursor),
            Failure,
        >(
            (
                Term::Binary(
                    BinaryOp::Add,
                    Box::new(
                        Term::Binary(
                            BinaryOp::Mul,
                            Box::new(atom(a.token)->0),
                            Box::new(atom(b.token)->0),
                        ),
                    ),
                    Box::new(atom(c.token)->0),
                ),
                end,
            ),
        ),
{
    if first.token is Plus && second.token is Star {
        lemma_tighter_operator_takes_the_middle(s, a, first, b, second, c, end, o);
    }
    if first.token is Star && second.token is Plus {
        lemma_looser_operator_leaves_the_middle(s, a, first, b, second, c, end, o);
    }
}

/// Wherever the tokens `a ^ b ^ c` stand as a
/// whole expression, they are parsed as `a ^ (b ^ c)`; the tokens
/// `a - b - c`, as those of every other operator, are parsed as
/// `(a - b) - c`.
pub proof fn law_power_associates_to_the_right(
    s: Seq<char>,
    a: Cursor,
    first: Cursor,
    b: Cursor,
    second: Cursor,
    c: Cursor,
    end: Cursor,
    o: Oracle,
)
    requires
        atom(a.token) is Some && atom(b.token) is Some && atom(c.token) is Some,
        infix_op(first.token) is Some,
        second.token == first.token,
        ends_expression(end.token),
        follows(s, a, first, o),
        follows(s, first, b, o),
        follows(s, b, second, o),
        follows(s, second, c, o),
        follows(s, c, end, o),
    ensures
        ({
            let op = infix_op(first.token)->0;
            let (ta, tb, tc) = (atom(a.token)->0, atom(b.token)->0, atom(c.token)->0);
            expression(s, a, 0, o) == Ok::<(Term, Cursor), Failure>(
                (
                    if op == BinaryOp::Pow {
                        Term::Binary(
                            op,
                            Box::new(ta),
                            Box::new(Term::Binary(op, Box::new(tb), Box::new(tc))),
                        )
                    } else {
                        Term::Binary(
                            op,
                            Box::new(Term::Binary(op, Box::new(ta), Box::new(tb))),
                            Box::new(tc),
                        )
                    },
                    end,
                ),
            )
        }),
{
    if first.token is Caret {
        lemma_tighter_operator_takes_the_middle(s, a, first, b, second, c, end, o);
    } else {
        lemma_looser_operator_leaves_the_middle(s, a, first, b, second, c, end, o);
    }
}

} // verus!
