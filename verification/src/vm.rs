//! The stack machine.
//!
//! What the machine does is stated by [`step`], the effect of one
//! instruction, and [`run`], the execution of a stream to its end; the
//! methods of [`VM`] are proved to compute them.

use crate::arith::{
    agrees, answers, is_zero, negate, negated, total, zero_bits, Operation, Oracle, Query, NAN,
};
use crate::ast::BinaryOp;
use crate::bytecode::{operand, Builtin, Code, OpCode, Program};
use crate::error::{Error, ErrorKind};
use crate::pool::{find_name, index_of};
use vstd::prelude::*;

verus! {

/// The infix operator that an opcode applies, if it applies one.
pub open spec fn infix_of(code: OpCode) -> Option<BinaryOp> {
    match code {
        OpCode::Add => Some(BinaryOp::Add),
        OpCode::Sub => Some(BinaryOp::Sub),
        OpCode::Mul => Some(BinaryOp::Mul),
        OpCode::Div => Some(BinaryOp::Div),
        OpCode::Pow => Some(BinaryOp::Pow),
        _ => None,
    }
}

/// The value of a call: NaN for a name that is no built-in function, else
/// what the arithmetic gives for the function and its arguments.
pub open spec fn applied(f: Builtin, args: Seq<u64>, o: Oracle) -> u64 {
    if f == Builtin::Unknown {
        NAN
    } else {
        o(Query::Call(f, args))
    }
}

/// The effect of one instruction.
pub enum Step {
    /// Execution goes on at `pc` with this stack.
    Next { pc: int, stack: Seq<u64> },
    /// Execution ends in an error, leaving this stack.
    Halt { fault: ErrorKind, stack: Seq<u64> },
}

/// How an evaluation ends: its result, and the stack it leaves behind.
pub struct Outcome {
    pub result: Result<u64, ErrorKind>,
    pub stack: Seq<u64>,
}

/// Executes the instruction at `pc`, which lies within the stream.
pub open spec fn step(c: Code, env: Seq<u64>, pc: int, stack: Seq<u64>, o: Oracle) -> Step {
    let n = stack.len() as int;
    match OpCode::decode(c.instructions[pc]) {
        None => Step::Halt { fault: ErrorKind::UnknownOpcode(c.instructions[pc]), stack },
        Some(OpCode::LoadConst) => Step::Next {
            pc: pc + 3,
            stack: stack.push(c.constants[c.operand_at(pc)]),
        },
        Some(OpCode::LoadVar) => Step::Next { pc: pc + 3, stack: stack.push(env[c.operand_at(pc)]) },
        Some(OpCode::Neg) => if n < 1 {
            Step::Halt { fault: ErrorKind::StackUnderflow, stack }
        } else {
            Step::Next { pc: pc + 1, stack: stack.drop_last().push(negated(stack.last())) }
        },
        Some(OpCode::Call) => {
            let f = c.operand_at(pc);
            let argc = c.instructions[pc + 3] as int;
            if f >= c.func_table.len() {
                Step::Halt { fault: ErrorKind::InvalidFunctionIndex(f as usize), stack }
            } else if n < argc {
                Step::Halt { fault: ErrorKind::StackUnderflow, stack }
            } else {
                Step::Next {
                    pc: pc + 4,
                    stack: stack.take(n - argc).push(
                        applied(c.func_table[f], stack.subrange(n - argc, n), o),
                    ),
                }
            }
        },
        Some(code) => {
            // the five infix operators: the right operand is on top
            if n < 1 {
                Step::Halt { fault: ErrorKind::StackUnderflow, stack }
            } else if n < 2 {
                Step::Halt { fault: ErrorKind::StackUnderflow, stack: stack.drop_last() }
            } else if code == OpCode::Div && is_zero(stack[n - 1]) {
                Step::Halt { fault: ErrorKind::DivisionByZero, stack: stack.take(n - 2) }
            } else {
                Step::Next {
                    pc: pc + 1,
                    stack: stack.take(n - 2).push(
                        o(Query::Binary(infix_of(code)->0, stack[n - 2], stack[n - 1])),
                    ),
                }
            }
        },
    }
}

/// Executes the stream from `pc` to its end, then pops the result. At the
/// end the stack must hold exactly one value, the result: an empty stack is
/// an underflow, and a stack that holds more is unbalanced.
pub open spec fn run(c: Code, env: Seq<u64>, pc: int, stack: Seq<u64>, o: Oracle) -> Outcome
    decreases
        (if 0 <= pc < c.instructions.len() {
            c.instructions.len() - pc
        } else {
            0
        }),
{
    if 0 <= pc < c.instructions.len() {
        match step(c, env, pc, stack, o) {
            Step::Next { pc: next, stack: pushed } => run(c, env, next, pushed, o),
            Step::Halt { fault, stack: left } => Outcome { result: Err(fault), stack: left },
        }
    } else if stack.len() == 0 {
        Outcome { result: Err(ErrorKind::StackUnderflow), stack }
    } else if stack.len() == 1 {
        Outcome { result: Ok(stack[0]), stack: Seq::empty() }
    } else {
        Outcome { result: Err(ErrorKind::UnbalancedStack(stack.len() as usize)), stack }
    }
}

/// One evaluation against a context: the context must cover the program's
/// variables, then the stream runs from its start on an empty stack.
pub open spec fn evaluate(c: Code, env: Seq<u64>, o: Oracle) -> Result<u64, ErrorKind> {
    if env.len() < c.var_names.len() {
        Err(
            ErrorKind::VariableCountMismatch {
                expected: c.var_names.len() as usize,
                got: env.len() as usize,
            },
        )
    } else {
        run(c, env, 0, Seq::empty(), o).result
    }
}

/// An error that the machine meets while it executes instructions or pops
/// the result: every runtime error but that of a context or value vector
/// of the wrong length, which is found before the first instruction.
pub open spec fn execution_fault(kind: ErrorKind) -> bool {
    ||| kind is DivisionByZero
    ||| kind is StackUnderflow
    ||| kind is UnbalancedStack
    ||| kind is InvalidFunctionIndex
    ||| kind is UnknownOpcode
}

/// The executable result `r` is `expected`; an error carries neither place
/// nor source text.
pub open spec fn gives(r: Result<u64, Error>, expected: Result<u64, ErrorKind>) -> bool {
    match r {
        Ok(v) => expected == Ok::<u64, ErrorKind>(v),
        Err(e) => expected == Err::<u64, ErrorKind>(e.kind) && e == Error::plain(e.kind),
    }
}

/// The executable result `r`, with the stack left behind, is the outcome
/// `out`.
pub open spec fn reports(r: Result<u64, Error>, stack: Seq<u64>, out: Outcome) -> bool {
    stack == out.stack && gives(r, out.result)
}

/// Reads the big-endian 16-bit operand stored at `at` and `at + 1`.
pub fn read_u16(instructions: &Vec<u8>, at: usize) -> (v: u16)
    requires
        at + 1 < instructions.len(),
    ensures
        v == operand(instructions@[at as int], instructions@[at + 1]),
{
    let high: u16 = instructions[at] as u16;
    let low: u16 = instructions[at + 1] as u16;
    high * 256 + low
}

/// Applies a function of the table to its arguments.
pub fn call_builtin<F: Fn(Operation) -> u64>(f: Builtin, args: &[u64], unit: &F) -> (r: u64)
    requires
        total(unit),
    ensures
        f == Builtin::Unknown ==> r == NAN,
        f != Builtin::Unknown ==> answers(unit, Query::Call(f, args@), r),
        forall|o: Oracle| #[trigger] agrees(unit, o) ==> r == applied(f, args@, o),
{
    match f {
        Builtin::Unknown => NAN,
        _ => {
            let q = Operation::Call(f, args);
            assert(q@ == Query::Call(f, args@));
            unit(q)
        },
    }
}

/// Applies an infix operator to two operands.
pub fn apply_binary<F: Fn(Operation) -> u64>(op: BinaryOp, a: u64, b: u64, unit: &F) -> (r: u64)
    requires
        total(unit),
    ensures
        answers(unit, Query::Binary(op, a, b), r),
        forall|o: Oracle| #[trigger] agrees(unit, o) ==> r == o(Query::Binary(op, a, b)),
{
    let q = Operation::Binary(op, a, b);
    assert(q@ == Query::Binary(op, a, b));
    unit(q)
}

/// The values of a program's variables: entry `i` is bound to the `i`-th name
/// of the program's variable list.
#[derive(Debug, Clone)]
pub struct Context {
    pub values: Vec<u64>,
}

impl View for Context {
    type V = Seq<u64>;

    open spec fn view(&self) -> Seq<u64> {
        self.values@
    }
}

/// `n` entries, each `+0.0`.
pub open spec fn zeros(n: nat) -> Seq<u64> {
    Seq::new(n, |i: int| 0u64)
}

/// `env` with entry `index` set to `value`, after zeros have filled it up to
/// that entry where it was shorter.
pub open spec fn bound(env: Seq<u64>, index: int, value: u64) -> Seq<u64> {
    if index < env.len() {
        env.update(index, value)
    } else {
        (env + zeros((index - env.len()) as nat)).push(value)
    }
}

/// `env` after the variable `name` of a program with the variables `vars`
/// has been bound to `value`. A name among `vars` is bound at its index.
/// The value of any other name is appended at or behind index
/// `vars.len()`, behind zeros where `env` was shorter than that.
pub open spec fn set_by_name(
    env: Seq<u64>,
    vars: Seq<Seq<char>>,
    name: Seq<char>,
    value: u64,
) -> Seq<u64> {
    if index_of(vars, name) < vars.len() {
        bound(env, index_of(vars, name), value)
    } else if env.len() < vars.len() {
        (env + zeros((vars.len() - env.len()) as nat)).push(value)
    } else {
        env.push(value)
    }
}

impl Context {
    /// A context that binds nothing.
    pub fn new() -> (c: Self)
        ensures
            c@ == Seq::<u64>::empty(),
    {
        Self { values: Vec::new() }
    }

    /// A context of `capacity` entries, each `+0.0`.
    pub fn with_capacity(capacity: usize) -> (c: Self)
        ensures
            c@ == zeros(capacity as nat),
    {
        let c = Self { values: vec![0u64; capacity] };
        assert(c@ =~= zeros(capacity as nat));
        c
    }

    /// Binds entry `index`, filling with `+0.0` up to it where the context
    /// was shorter.
    pub fn set_by_index(&mut self, index: usize, value: u64)
        requires
            index < usize::MAX,
        ensures
            final(self)@ == bound(old(self)@, index as int, value),
    {
        if index >= self.values.len() {
            self.values.resize(index + 1, 0);
        }
        self.values[index] = value;
        assert(self@ =~= bound(old(self)@, index as int, value));
    }

    /// Binds the variable `name` of `program`. The value of a name that the
    /// program does not use is appended out of the program's reach: behind
    /// the entries of the program's variables, which are filled with `+0.0`
    /// where the context did not hold them yet.
    pub fn set(&mut self, name: &str, value: u64, program: &Program)
        ensures
            final(self)@ == set_by_name(old(self)@, program@.var_names, name@, value),
    {
        let index = find_name(&program.var_names, name);
        let count = program.var_names.len();
        if index < count {
            self.set_by_index(index, value);
        } else {
            if self.values.len() < count {
                self.values.resize(count, 0);
            }
            self.values.push(value);
            assert(self@ =~= set_by_name(old(self)@, program@.var_names, name@, value));
        }
    }

    /// The value of entry `index`, if the context reaches that far.
    pub fn get_by_index(&self, index: usize) -> (v: Option<u64>)
        ensures
            v == if index < self@.len() {
                Some(self@[index as int])
            } else {
                None
            },
    {
        if index < self.values.len() {
            Some(self.values[index])
        } else {
            None
        }
    }

    /// The value bound to the variable `name` of `program`, if the program
    /// uses the name and the context reaches its entry.
    pub fn get(&self, name: &str, program: &Program) -> (v: Option<u64>)
        ensures
            v == if index_of(program@.var_names, name@) < program@.var_names.len() && index_of(
                program@.var_names,
                name@,
            ) < self@.len() {
                Some(self@[index_of(program@.var_names, name@)])
            } else {
                None
            },
    {
        let index = find_name(&program.var_names, name);
        if index < program.var_names.len() {
            self.get_by_index(index)
        } else {
            None
        }
    }

    /// The entries, in order.
    pub fn values(&self) -> (v: &[u64])
        ensures
            v@ == self@,
    {
        self.values.as_slice()
    }
}

/// The value vectors of a batch.
pub open spec fn sets_of(var_sets: Seq<&[u64]>) -> Seq<Seq<u64>> {
    Seq::new(var_sets.len(), |i: int| var_sets[i]@)
}

/// Evaluates the program once for each value vector, in order, each time on
/// an empty stack, and stops at the first error. A vector must have exactly
/// as many values as the program has variables.
pub open spec fn run_batch(c: Code, sets: Seq<Seq<u64>>, o: Oracle) -> Result<Seq<u64>, ErrorKind>
    decreases sets.len(),
{
    if sets.len() == 0 {
        Ok(Seq::empty())
    } else {
        match run_batch(c, sets.drop_last(), o) {
            Err(e) => Err(e),
            Ok(done) => if sets.last().len() != c.var_names.len() {
                Err(
                    ErrorKind::VariableCountMismatch {
                        expected: c.var_names.len() as usize,
                        got: sets.last().len() as usize,
                    },
                )
            } else {
                match run(c, sets.last(), 0, Seq::empty(), o).result {
                    Ok(v) => Ok(done.push(v)),
                    Err(e) => Err(e),
                }
            },
        }
    }
}

/// A batch that has met an error evaluates no further value vector.
pub proof fn lemma_batch_stops(c: Code, sets: Seq<Seq<u64>>, k: int, o: Oracle)
    requires
        0 <= k <= sets.len(),
        run_batch(c, sets.take(k), o) is Err,
    ensures
        run_batch(c, sets, o) == run_batch(c, sets.take(k), o),
    decreases sets.len(),
{
    if k == sets.len() {
        assert(sets.take(k) =~= sets);
    } else {
        assert(sets.drop_last().take(k) =~= sets.take(k));
        lemma_batch_stops(c, sets.drop_last(), k, o);
    }
}

/// The executable result `r` is `expected`; an error carries neither place
/// nor source text.
pub open spec fn gives_all(
    r: Result<Vec<u64>, Error>,
    expected: Result<Seq<u64>, ErrorKind>,
) -> bool {
    match r {
        Ok(v) => expected == Ok::<Seq<u64>, ErrorKind>(v@),
        Err(e) => expected == Err::<Seq<u64>, ErrorKind>(e.kind) && e == Error::plain(e.kind),
    }
}

/// A stack machine that runs one program.
pub struct VM<'a> {
    pub program: &'a Program,
    pub stack: Vec<u64>,
}

impl<'a> VM<'a> {
    /// A machine for `program`, with an empty stack.
    pub fn new(program: &'a Program) -> (vm: Self)
        ensures
            vm.program == program,
            vm.stack@ == Seq::<u64>::empty(),
    {
        Self { program, stack: Vec::with_capacity(32) }
    }

    /// Evaluates the program against a context. The stack is emptied
    /// first, so that a machine can be run again whatever its last run left,
    /// and is empty on return. The context may be longer than the program's
    /// variable list, not shorter: a shorter one is refused before any
    /// instruction is executed, and nothing else is.
    pub fn run<F: Fn(Operation) -> u64>(&mut self, context: &Context, unit: &F) -> (r: Result<
        u64,
        Error,
    >)
        requires
            total(unit),
            old(self).program@.well_formed(),
        ensures
            final(self).program == old(self).program,
            final(self).stack@ == Seq::<u64>::empty(),
            context@.len() < old(self).program@.var_names.len() ==> r == Err::<u64, Error>(
                Error::plain(
                    ErrorKind::VariableCountMismatch {
                        expected: old(self).program@.var_names.len() as usize,
                        got: context@.len() as usize,
                    },
                ),
            ),
            context@.len() >= old(self).program@.var_names.len() ==> (r matches Err(e)
                ==> execution_fault(e.kind)),
            forall|o: Oracle| #[trigger]
                agrees(unit, o) ==> gives(r, evaluate(old(self).program@, context@, o)),
    {
        self.stack.clear();
        if context.values.len() < self.program.var_names.len() {
            return Err(
                Error::new(
                    ErrorKind::VariableCountMismatch {
                        expected: self.program.var_names.len(),
                        got: context.values.len(),
                    },
                ),
            );
        }
        let r = self.execute(context.values(), unit);
        self.stack.clear();
        r
    }

    /// Evaluates the program once for each value vector, reusing this
    /// machine: the stack is emptied before each evaluation, and is empty
    /// on return.
    pub fn run_batch<F: Fn(Operation) -> u64>(&mut self, var_sets: &[&[u64]], unit: &F) -> (r:
        Result<Vec<u64>, Error>)
        requires
            total(unit),
            old(self).program@.well_formed(),
        ensures
            final(self).program == old(self).program,
            final(self).stack@ == Seq::<u64>::empty(),
            r matches Ok(results) ==> results@.len() == var_sets@.len(),
            forall|o: Oracle| #[trigger]
                agrees(unit, o) ==> gives_all(
                    r,
                    run_batch(old(self).program@, sets_of(var_sets@), o),
                ),
    {
        let expected = self.program.var_names.len();
        let ghost c = self.program@;
        let ghost sets = sets_of(var_sets@);
        let mut results: Vec<u64> = Vec::with_capacity(var_sets.len());
        let mut i: usize = 0;
        self.stack.clear();
        while i < var_sets.len()
            invariant
                total(unit),
                self.program == old(self).program,
                c == self.program@,
                c.well_formed(),
                expected == c.var_names.len(),
                sets == sets_of(var_sets@),
                i <= var_sets.len(),
                results@.len() == i,
                self.stack@ == Seq::<u64>::empty(),
                forall|o: Oracle| #[trigger]
                    agrees(unit, o) ==> run_batch(c, sets.take(i as int), o) == Ok::<
                        Seq<u64>,
                        ErrorKind,
                    >(results@),
            decreases var_sets.len() - i,
        {
            let values = var_sets[i];
            proof {
                assert(sets.take(i + 1).drop_last() =~= sets.take(i as int));
                assert(sets.take(i + 1).last() == values@);
                assert forall|o: Oracle| #[trigger]
                    agrees(unit, o) && run_batch(c, sets.take(i + 1), o) is Err implies run_batch(
                    c,
                    sets,
                    o,
                ) == run_batch(c, sets.take(i + 1), o) by {
                    lemma_batch_stops(c, sets, i + 1, o);
                }
            }
            if values.len() != expected {
                return Err(
                    Error::new(
                        ErrorKind::VariableCountMismatch { expected, got: values.len() },
                    ),
                );
            }
            match self.execute(values, unit) {
                Ok(v) => {
                    results.push(v);
                },
                Err(e) => {
                    self.stack.clear();
                    return Err(e);
                },
            }
            i += 1;
        }
        proof {
            assert(sets.take(i as int) =~= sets);
        }
        Ok(results)
    }

    /// Runs the instruction stream from its start on the stack as it stands,
    /// reading variables from `values`, and pops the result. The methods
    /// that evaluate call it on an empty stack.
    fn execute<F: Fn(Operation) -> u64>(&mut self, values: &[u64], unit: &F) -> (r: Result<
        u64,
        Error,
    >)
        requires
            total(unit),
            old(self).program@.well_formed(),
            values@.len() >= old(self).program@.var_names.len(),
        ensures
            final(self).program == old(self).program,
            r is Ok ==> final(self).stack@ == Seq::<u64>::empty(),
            r matches Err(e) ==> execution_fault(e.kind) && e == Error::plain(e.kind),
            forall|o: Oracle| #[trigger]
                agrees(unit, o) ==> reports(
                    r,
                    final(self).stack@,
                    run(old(self).program@, values@, 0, old(self).stack@, o),
                ),
    {
        let ghost c = self.program@;
        let ghost env = values@;
        let ghost start = self.stack@;
        let n = self.program.instructions.len();
        let mut pc: usize = 0;
        while pc < n
            invariant
                total(unit),
                self.program == old(self).program,
                c == self.program@,
                env == values@,
                start == old(self).stack@,
                n == c.instructions.len(),
                pc <= n,
                c.well_formed_from(pc as int),
                env.len() >= c.var_names.len(),
                forall|o: Oracle| #[trigger]
                    agrees(unit, o) ==> run(c, env, 0, start, o) == run(
                        c,
                        env,
                        pc as int,
                        self.stack@,
                        o,
                    ),
            decreases n - pc,
        {
            let byte = self.program.instructions[pc];
            let ghost before = self.stack@;
            match OpCode::from_byte(byte) {
                None => {
                    return Err(Error::new(ErrorKind::UnknownOpcode(byte)));
                },
                Some(OpCode::LoadConst) => {
                    let idx = read_u16(&self.program.instructions, pc + 1);
                    self.stack.push(self.program.constants[idx as usize]);
                    pc = pc + 3;
                },
                Some(OpCode::LoadVar) => {
                    let idx = read_u16(&self.program.instructions, pc + 1);
                    proof {
                        assert(c.var_names.len() == self.program.var_names@.len());
                    }
                    self.stack.push(values[idx as usize]);
                    pc = pc + 3;
                },
                Some(OpCode::Neg) => {
                    match self.stack.pop() {
                        None => {
                            return Err(Error::new(ErrorKind::StackUnderflow));
                        },
                        Some(a) => {
                            self.stack.push(negate(a));
                        },
                    }
                    pc = pc + 1;
                },
                Some(OpCode::Call) => {
                    let func_idx = read_u16(&self.program.instructions, pc + 1) as usize;
                    let arg_count = self.program.instructions[pc + 3] as usize;
                    if func_idx >= self.program.func_table.len() {
                        return Err(Error::new(ErrorKind::InvalidFunctionIndex(func_idx)));
                    }
                    let stack_len = self.stack.len();
                    if stack_len < arg_count {
                        return Err(Error::new(ErrorKind::StackUnderflow));
                    }
                    let args_start = stack_len - arg_count;
                    let result = call_builtin(
                        self.program.func_table[func_idx],
                        vstd::slice::slice_subrange(self.stack.as_slice(), args_start, stack_len),
                        unit,
                    );
                    self.stack.truncate(args_start);
                    self.stack.push(result);
                    pc = pc + 4;
                },
                Some(code) => {
                    let op = match code {
                        OpCode::Add => BinaryOp::Add,
                        OpCode::Sub => BinaryOp::Sub,
                        OpCode::Mul => BinaryOp::Mul,
                        OpCode::Div => BinaryOp::Div,
                        _ => BinaryOp::Pow,
                    };
                    let b = match self.stack.pop() {
                        None => {
                            return Err(Error::new(ErrorKind::StackUnderflow));
                        },
                        Some(b) => b,
                    };
                    let a = match self.stack.pop() {
                        None => {
                            return Err(Error::new(ErrorKind::StackUnderflow));
                        },
                        Some(a) => a,
                    };
                    proof {
                        assert(self.stack@ =~= before.take(before.len() - 2));
                    }
                    if matches!(op, BinaryOp::Div) && zero_bits(b) {
                        return Err(Error::division_by_zero());
                    }
                    let result = apply_binary(op, a, b, unit);
                    self.stack.push(result);
                    pc = pc + 1;
                },
            }
        }
        let left = self.stack.len();
        if left == 1 {
            match self.stack.pop() {
                Some(v) => {
                    assert(self.stack@ =~= Seq::<u64>::empty());
                    Ok(v)
                },
                None => Err(Error::new(ErrorKind::StackUnderflow)),
            }
        } else if left == 0 {
            Err(Error::new(ErrorKind::StackUnderflow))
        } else {
            Err(Error::new(ErrorKind::UnbalancedStack(left)))
        }
    }
}

} // verus!
