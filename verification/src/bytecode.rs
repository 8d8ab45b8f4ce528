//! Programs: the instruction set, the function table, and what makes an
//! instruction stream well formed.

use crate::pool::{distinct, names};
use crate::text::str_eq;
use vstd::prelude::*;

verus! {

/// The instruction set. Each opcode is one byte, followed by its operands:
/// `LoadConst` and `LoadVar` by a big-endian 16-bit pool index, `Call` by a
/// big-endian 16-bit function index and one byte for the argument count.
#[derive(Debug, Clone, Copy, PartialEq, Eq, Structural)]
pub enum OpCode {
    LoadConst,
    LoadVar,
    Add,
    Sub,
    Mul,
    Div,
    Pow,
    Neg,
    Call,
}

impl OpCode {
    /// The byte that encodes this opcode.
    pub open spec fn byte(self) -> u8 {
        match self {
            OpCode::LoadConst => 0,
            OpCode::LoadVar => 1,
            OpCode::Add => 2,
            OpCode::Sub => 3,
            OpCode::Mul => 4,
            OpCode::Div => 5,
            OpCode::Pow => 6,
            OpCode::Neg => 7,
            OpCode::Call => 8,
        }
    }

    /// The opcode that a byte encodes, if any.
    pub open spec fn decode(b: u8) -> Option<OpCode> {
        if b == 0 {
            Some(OpCode::LoadConst)
        } else if b == 1 {
            Some(OpCode::LoadVar)
        } else if b == 2 {
            Some(OpCode::Add)
        } else if b == 3 {
            Some(OpCode::Sub)
        } else if b == 4 {
            Some(OpCode::Mul)
        } else if b == 5 {
            Some(OpCode::Div)
        } else if b == 6 {
            Some(OpCode::Pow)
        } else if b == 7 {
            Some(OpCode::Neg)
        } else if b == 8 {
            Some(OpCode::Call)
        } else {
            None
        }
    }

    /// The number of operand bytes that follow this opcode.
    pub open spec fn operand_len(self) -> int {
        match self {
            OpCode::LoadConst | OpCode::LoadVar => 2,
            OpCode::Call => 3,
            _ => 0,
        }
    }

    /// The byte that encodes this opcode.
    pub fn to_byte(self) -> (b: u8)
        ensures
            b == self.byte(),
            OpCode::decode(b) == Some(self),
    {
        match self {
            OpCode::LoadConst => 0,
            OpCode::LoadVar => 1,
            OpCode::Add => 2,
            OpCode::Sub => 3,
            OpCode::Mul => 4,
            OpCode::Div => 5,
            OpCode::Pow => 6,
            OpCode::Neg => 7,
            OpCode::Call => 8,
        }
    }

    /// The opcode that a byte encodes, if any.
    pub fn from_byte(b: u8) -> (op: Option<OpCode>)
        ensures
            op == OpCode::decode(b),
            op is Some <==> b <= 8,
            op matches Some(code) ==> code.byte() == b,
    {
        if b == 0 {
            Some(OpCode::LoadConst)
        } else if b == 1 {
            Some(OpCode::LoadVar)
        } else if b == 2 {
            Some(OpCode::Add)
        } else if b == 3 {
            Some(OpCode::Sub)
        } else if b == 4 {
            Some(OpCode::Mul)
        } else if b == 5 {
            Some(OpCode::Div)
        } else if b == 6 {
            Some(OpCode::Pow)
        } else if b == 7 {
            Some(OpCode::Neg)
        } else if b == 8 {
            Some(OpCode::Call)
        } else {
            None
        }
    }
}

/// What is known of a function's arity.
#[derive(Debug, Clone, Copy, PartialEq, Eq, Structural)]
pub struct FunctionMetadata {
    /// The expected number of arguments; `None` for a variadic function.
    pub expected_args: Option<usize>,
}

impl FunctionMetadata {
    /// Metadata of a function that expects the given number of arguments,
    /// or any number where none is given.
    pub fn new(expected_args: Option<usize>) -> (m: Self)
        ensures
            m.expected_args == expected_args,
    {
        Self { expected_args }
    }

    /// Metadata of a function that expects `count` arguments.
    pub fn fixed(count: usize) -> (m: Self)
        ensures
            m.expected_args == Some(count),
    {
        Self { expected_args: Some(count) }
    }

    /// Metadata of a function that takes any number of arguments.
    pub fn variadic() -> (m: Self)
        ensures
            m.expected_args is None,
    {
        Self { expected_args: None }
    }
}

/// An entry of a program's function table: one of the built-in functions,
/// or the stand-in for a name that is none of them.
#[derive(Debug, Clone, Copy, PartialEq, Eq, Structural)]
pub enum Builtin {
    Sin,
    Cos,
    Tan,
    Sqrt,
    Abs,
    Floor,
    Ceil,
    Round,
    Exp,
    Ln,
    Log10,
    Max,
    Min,
    /// Any other name. Calling it yields NaN.
    Unknown,
}

impl Builtin {
    /// The function that a name refers to.
    pub open spec fn named(name: Seq<char>) -> Builtin {
        if name == "sin"@ {
            Builtin::Sin
        } else if name == "cos"@ {
            Builtin::Cos
        } else if name == "tan"@ {
            Builtin::Tan
        } else if name == "sqrt"@ {
            Builtin::Sqrt
        } else if name == "abs"@ {
            Builtin::Abs
        } else if name == "floor"@ {
            Builtin::Floor
        } else if name == "ceil"@ {
            Builtin::Ceil
        } else if name == "round"@ {
            Builtin::Round
        } else if name == "exp"@ {
            Builtin::Exp
        } else if name == "ln"@ {
            Builtin::Ln
        } else if name == "log10"@ {
            Builtin::Log10
        } else if name == "max"@ {
            Builtin::Max
        } else if name == "min"@ {
            Builtin::Min
        } else {
            Builtin::Unknown
        }
    }

    /// The number of arguments the function expects; `None` where it takes
    /// any number of them.
    pub open spec fn arity(self) -> Option<usize> {
        match self {
            Builtin::Max | Builtin::Min | Builtin::Unknown => None,
            _ => Some(1),
        }
    }

    /// Looks a name up in the registry of built-in functions.
    pub fn resolve(name: &str) -> (b: Builtin)
        ensures
            b == Builtin::named(name@),
    {
        if str_eq(name, "sin") {
            Builtin::Sin
        } else if str_eq(name, "cos") {
            Builtin::Cos
        } else if str_eq(name, "tan") {
            Builtin::Tan
        } else if str_eq(name, "sqrt") {
            Builtin::Sqrt
        } else if str_eq(name, "abs") {
            Builtin::Abs
        } else if str_eq(name, "floor") {
            Builtin::Floor
        } else if str_eq(name, "ceil") {
            Builtin::Ceil
        } else if str_eq(name, "round") {
            Builtin::Round
        } else if str_eq(name, "exp") {
            Builtin::Exp
        } else if str_eq(name, "ln") {
            Builtin::Ln
        } else if str_eq(name, "log10") {
            Builtin::Log10
        } else if str_eq(name, "max") {
            Builtin::Max
        } else if str_eq(name, "min") {
            Builtin::Min
        } else {
            Builtin::Unknown
        }
    }

    /// What is known of the function's arity.
    pub fn metadata(self) -> (m: FunctionMetadata)
        ensures
            m.expected_args == self.arity(),
    {
        match self {
            Builtin::Max | Builtin::Min | Builtin::Unknown => FunctionMetadata::variadic(),
            _ => FunctionMetadata::fixed(1),
        }
    }
}

/// A compiled program.
#[derive(Debug, Clone)]
pub struct Program {
    /// The instruction stream: opcodes, each followed by its operands.
    pub instructions: Vec<u8>,
    /// The constants pool: the bits of each numeric literal, each once.
    pub constants: Vec<u64>,
    /// The variables, each once, in the order in which they first appear.
    pub var_names: Vec<String>,
    /// The function that each `Call` index dispatches to.
    pub func_table: Vec<Builtin>,
    /// The names behind the function table, for diagnostics.
    pub func_names: Vec<String>,
    /// The arity known of each function of the table.
    pub func_metadata: Vec<FunctionMetadata>,
}

/// A program as a mathematical value.
pub struct Code {
    pub instructions: Seq<u8>,
    pub constants: Seq<u64>,
    pub var_names: Seq<Seq<char>>,
    pub func_table: Seq<Builtin>,
    pub func_names: Seq<Seq<char>>,
    pub func_metadata: Seq<FunctionMetadata>,
}

impl View for Program {
    type V = Code;

    open spec fn view(&self) -> Code {
        Code {
            instructions: self.instructions@,
            constants: self.constants@,
            var_names: names(self.var_names@),
            func_table: self.func_table@,
            func_names: names(self.func_names@),
            func_metadata: self.func_metadata@,
        }
    }
}

/// The 16-bit operand stored big-endian in two bytes.
pub open spec fn operand(high: u8, low: u8) -> int {
    high as int * 256 + low as int
}

impl Code {
    /// The program with nothing in it.
    pub open spec fn empty() -> Code {
        Code {
            instructions: Seq::empty(),
            constants: Seq::empty(),
            var_names: Seq::empty(),
            func_table: Seq::empty(),
            func_names: Seq::empty(),
            func_metadata: Seq::empty(),
        }
    }

    /// The 16-bit operand that follows the opcode at `pc`.
    pub open spec fn operand_at(self, pc: int) -> int {
        operand(self.instructions[pc + 1], self.instructions[pc + 2])
    }

    /// Every instruction that decoding reaches from `pc` on is complete, and
    /// its constant or variable index is within its pool. Decoding stops at a
    /// byte that is no opcode.
    pub open spec fn well_formed_from(self, pc: int) -> bool
        decreases self.instructions.len() - pc,
    {
        if pc < 0 || pc >= self.instructions.len() {
            true
        } else {
            match OpCode::decode(self.instructions[pc]) {
                None => true,
                Some(op) => {
                    &&& pc + op.operand_len() < self.instructions.len()
                    &&& op == OpCode::LoadConst ==> self.operand_at(pc) < self.constants.len()
                    &&& op == OpCode::LoadVar ==> self.operand_at(pc) < self.var_names.len()
                    &&& self.well_formed_from(pc + 1 + op.operand_len())
                },
            }
        }
    }

    /// The instruction stream decodes, with every pool index in range.
    pub open spec fn well_formed(self) -> bool {
        self.well_formed_from(0)
    }

    /// As `well_formed_from`, and every `Call` that decoding reaches names
    /// an entry of the function table.
    pub open spec fn linked_from(self, pc: int) -> bool
        decreases self.instructions.len() - pc,
    {
        if pc < 0 || pc >= self.instructions.len() {
            true
        } else {
            match OpCode::decode(self.instructions[pc]) {
                None => true,
                Some(op) => {
                    &&& pc + op.operand_len() < self.instructions.len()
                    &&& op == OpCode::LoadConst ==> self.operand_at(pc) < self.constants.len()
                    &&& op == OpCode::LoadVar ==> self.operand_at(pc) < self.var_names.len()
                    &&& op == OpCode::Call ==> self.operand_at(pc) < self.func_table.len()
                    &&& self.linked_from(pc + 1 + op.operand_len())
                },
            }
        }
    }

    /// The three function tables run in parallel: entry `i` of each speaks
    /// of the function that name `i` refers to.
    pub open spec fn tables_agree(self) -> bool {
        &&& self.func_table.len() == self.func_names.len()
        &&& self.func_metadata.len() == self.func_names.len()
        &&& forall|i: int|
            0 <= i < self.func_names.len() ==> #[trigger] self.func_table[i] == Builtin::named(
                self.func_names[i],
            )
        &&& forall|i: int|
            0 <= i < self.func_names.len() ==> (#[trigger] self.func_metadata[i]).expected_args
                == Builtin::named(self.func_names[i]).arity()
    }

    /// What holds of every program that lowering produces: the stream
    /// decodes with every index in range, no pool holds a value twice, and
    /// the function tables run in parallel.
    pub open spec fn consistent(self) -> bool {
        &&& self.linked_from(0)
        &&& self.tables_agree()
        &&& distinct(self.constants)
        &&& distinct(self.var_names)
        &&& distinct(self.func_names)
    }

    /// This program is `earlier` with more appended: to the stream, and to
    /// each pool.
    pub open spec fn extends(self, earlier: Code) -> bool {
        &&& earlier.instructions.is_prefix_of(self.instructions)
        &&& earlier.constants.is_prefix_of(self.constants)
        &&& earlier.var_names.is_prefix_of(self.var_names)
        &&& earlier.func_table.is_prefix_of(self.func_table)
        &&& earlier.func_names.is_prefix_of(self.func_names)
        &&& earlier.func_metadata.is_prefix_of(self.func_metadata)
    }
}

/// A stream whose calls all resolve is well formed.
pub proof fn lemma_linked_is_well_formed(c: Code, pc: int)
    requires
        c.linked_from(pc),
    ensures
        c.well_formed_from(pc),
    decreases c.instructions.len() - pc,
{
    if 0 <= pc < c.instructions.len() {
        match OpCode::decode(c.instructions[pc]) {
            None => {},
            Some(op) => {
                lemma_linked_is_well_formed(c, pc + 1 + op.operand_len());
            },
        }
    }
}

/// Appending to a program keeps what was decoded before: if the old stream
/// is linked from `pc` and the new one from the old stream's end, the new
/// one is linked from `pc`.
pub proof fn lemma_linked_extends(c: Code, d: Code, pc: int)
    requires
        d.extends(c),
        0 <= pc <= c.instructions.len(),
        c.linked_from(pc),
        d.linked_from(c.instructions.len() as int),
    ensures
        d.linked_from(pc),
    decreases c.instructions.len() - pc,
{
    if pc < c.instructions.len() {
        assert(d.instructions[pc] == c.instructions[pc]);
        match OpCode::decode(c.instructions[pc]) {
            None => {},
            Some(op) => {
                if op.operand_len() >= 2 {
                    assert(d.instructions[pc + 1] == c.instructions[pc + 1]);
                    assert(d.instructions[pc + 2] == c.instructions[pc + 2]);
                }
                lemma_linked_extends(c, d, pc + 1 + op.operand_len());
            },
        }
    }
}

impl Program {
    /// The empty program.
    pub fn new() -> (p: Self)
        ensures
            p@ == Code::empty(),
            p@.well_formed(),
    {
        let p = Self {
            instructions: Vec::new(),
            constants: Vec::new(),
            var_names: Vec::new(),
            func_table: Vec::new(),
            func_names: Vec::new(),
            func_metadata: Vec::new(),
        };
        assert(p@.var_names =~= Seq::empty());
        assert(p@.func_names =~= Seq::empty());
        p
    }

    /// Whether the program is well formed, decided by one pass over the
    /// instruction stream.
    pub fn validate(&self) -> (ok: bool)
        ensures
            ok == self@.well_formed(),
    {
        let n = self.instructions.len();
        let mut pc: usize = 0;
        while pc < n
            invariant
                n == self.instructions.len(),
                pc <= n,
                self@.well_formed() == self@.well_formed_from(pc as int),
            decreases n - pc,
        {
            match OpCode::from_byte(self.instructions[pc]) {
                None => {
                    return true;
                },
                Some(op) => {
                    let width: usize = match op {
                        OpCode::LoadConst | OpCode::LoadVar => 2,
                        OpCode::Call => 3,
                        _ => 0,
                    };
                    if n - pc <= width {
                        return false;
                    }
                    if width == 2 {
                        let high: usize = self.instructions[pc + 1] as usize;
                        let low: usize = self.instructions[pc + 2] as usize;
                        let idx: usize = high * 256 + low;
                        let limit = match op {
                            OpCode::LoadConst => self.constants.len(),
                            _ => self.var_names.len(),
                        };
                        if idx >= limit {
                            return false;
                        }
                    }
                    pc = pc + 1 + width;
                },
            }
        }
        true
    }
}

} // verus!
