//! Errors: their kinds, their places in the source text, and the reports
//! that a reader is shown.

use crate::text::{blanks, decimal, decimal_text, line_of, line_text, spaces};
use vstd::prelude::*;

verus! {

/// The plural ending after a count.
pub open spec fn plural(n: usize) -> Seq<char> {
    if n == 1 {
        ""@
    } else {
        "s"@
    }
}

fn plural_of(n: usize) -> (s: &'static str)
    ensures
        s@ == plural(n),
{
    if n == 1 {
        ""
    } else {
        "s"
    }
}

/// A place in the source text.
#[derive(Debug, Clone, Copy, PartialEq, Eq, Structural)]
pub struct Position {
    /// Line number, counted from 1.
    pub line: usize,
    /// Column within the line, in characters, counted from 1.
    pub column: usize,
    /// Offset from the start of the text, in bytes.
    pub offset: usize,
}

impl Position {
    /// The place at the given line, column and byte offset.
    pub fn new(line: usize, column: usize, offset: usize) -> (p: Self)
        ensures
            p.line == line,
            p.column == column,
            p.offset == offset,
    {
        Self { line, column, offset }
    }

    /// The place as a reader is told it: `line L, column C`.
    pub open spec fn text(self) -> Seq<char> {
        "line "@ + decimal_text(self.line as nat) + ", column "@ + decimal_text(
            self.column as nat,
        )
    }

    /// The count of blanks before the caret under column `column` of the
    /// quoted line fits in a machine word: the label of the line, less one,
    /// and the column.
    pub open spec fn caret_fits(self) -> bool {
        4 + decimal_text(self.line as nat).len() + self.column <= usize::MAX
    }

    /// The place as text.
    pub fn to_string(&self) -> (s: String)
        ensures
            s@ == self.text(),
    {
        let mut s = String::from_str("line ");
        s.append(decimal(self.line).as_str());
        s.append(", column ");
        s.append(decimal(self.column).as_str());
        s
    }

    /// The place of the first character of any text.
    pub fn start() -> (p: Self)
        ensures
            p == (Position { line: 1, column: 1, offset: 0 }),
    {
        Self { line: 1, column: 1, offset: 0 }
    }
}

/// What went wrong, by stage.
#[derive(Debug, Clone, PartialEq)]
#[allow(inconsistent_fields)]
pub enum ErrorKind {
    // scanning
    /// A character that starts no token.
    UnexpectedCharacter(char),
    /// A numeral with a second decimal point, given up to that point, or a
    /// decimal point without digits.
    InvalidNumber(String),
    // parsing
    /// A token, given by its name, where the grammar allows none of its kind.
    UnexpectedToken(String),
    /// A token other than the one the grammar asks for. The parser reports
    /// a missing parenthesis by the two kinds below instead.
    ExpectedToken { expected: String, found: String },
    /// An opening parenthesis without its closing one.
    MissingClosingParen,
    /// The arguments of a call to the named function are not closed.
    MissingFunctionClosingParen(String),
    // lowering
    /// A name that is no built-in function. Lowering accepts such a name,
    /// and calling it yields NaN; the kind is for hosts that refuse it.
    UnknownFunction(String),
    /// A pool would hold more entries than a 16-bit index can tell apart.
    PoolOverflow,
    /// A call with more arguments, as given, than one byte can count.
    TooManyArguments(usize),
    // evaluation
    /// A division whose divisor compares equal to zero.
    DivisionByZero,
    /// An instruction found fewer values on the stack than it takes, or the
    /// end of the program found none to return.
    StackUnderflow,
    /// The end of the program found more than one value on the stack, as
    /// many as given, where the one result should be.
    UnbalancedStack(usize),
    /// A variable of the program to which nothing is bound.
    UndefinedVariable(String),
    /// A `Call` names an entry that the function table does not have.
    InvalidFunctionIndex(usize),
    /// A function called with a number of arguments that it does not take.
    /// Neither lowering nor evaluation enforces arities.
    WrongArgumentCount { function: String, expected: usize, got: usize },
    /// A context or value vector of the wrong length for the program.
    VariableCountMismatch { expected: usize, got: usize },
    /// A byte of the instruction stream that is no opcode.
    UnknownOpcode(u8),
}

/// An [`ErrorKind`] as a mathematical value: texts are sequences of
/// characters.
#[allow(inconsistent_fields)]
pub enum Fault {
    UnexpectedCharacter(char),
    InvalidNumber(Seq<char>),
    UnexpectedToken(Seq<char>),
    ExpectedToken { expected: Seq<char>, found: Seq<char> },
    MissingClosingParen,
    MissingFunctionClosingParen(Seq<char>),
    UnknownFunction(Seq<char>),
    PoolOverflow,
    TooManyArguments(usize),
    DivisionByZero,
    StackUnderflow,
    UnbalancedStack(usize),
    UndefinedVariable(Seq<char>),
    InvalidFunctionIndex(usize),
    WrongArgumentCount { function: Seq<char>, expected: usize, got: usize },
    VariableCountMismatch { expected: usize, got: usize },
    UnknownOpcode(u8),
}

impl View for ErrorKind {
    type V = Fault;

    open spec fn view(&self) -> Fault {
        match *self {
            ErrorKind::UnexpectedCharacter(ch) => Fault::UnexpectedCharacter(ch),
            ErrorKind::InvalidNumber(s) => Fault::InvalidNumber(s@),
            ErrorKind::UnexpectedToken(s) => Fault::UnexpectedToken(s@),
            ErrorKind::ExpectedToken { expected, found } => Fault::ExpectedToken {
                expected: expected@,
                found: found@,
            },
            ErrorKind::MissingClosingParen => Fault::MissingClosingParen,
            ErrorKind::MissingFunctionClosingParen(s) => Fault::MissingFunctionClosingParen(s@),
            ErrorKind::UnknownFunction(s) => Fault::UnknownFunction(s@),
            ErrorKind::PoolOverflow => Fault::PoolOverflow,
            ErrorKind::TooManyArguments(n) => Fault::TooManyArguments(n),
            ErrorKind::DivisionByZero => Fault::DivisionByZero,
            ErrorKind::StackUnderflow => Fault::StackUnderflow,
            ErrorKind::UnbalancedStack(n) => Fault::UnbalancedStack(n),
            ErrorKind::UndefinedVariable(s) => Fault::UndefinedVariable(s@),
            ErrorKind::InvalidFunctionIndex(i) => Fault::InvalidFunctionIndex(i),
            ErrorKind::WrongArgumentCount { function, expected, got } => Fault::WrongArgumentCount {
                function: function@,
                expected,
                got,
            },
            ErrorKind::VariableCountMismatch { expected, got } => Fault::VariableCountMismatch {
                expected,
                got,
            },
            ErrorKind::UnknownOpcode(op) => Fault::UnknownOpcode(op),
        }
    }
}

impl ErrorKind {
    /// The message of each kind of error.
    pub open spec fn text(self) -> Seq<char> {
        match self {
            ErrorKind::UnexpectedCharacter(ch) => "Unexpected character '"@.push(ch) + "'"@,
            ErrorKind::InvalidNumber(s) => "Invalid number format: '"@ + s@ + "'"@,
            ErrorKind::UnexpectedToken(token) => "Unexpected token: "@ + token@,
            ErrorKind::ExpectedToken { expected, found } => "Expected "@ + expected@
                + ", but found "@ + found@,
            ErrorKind::MissingClosingParen => "Missing closing parenthesis ')'"@,
            ErrorKind::MissingFunctionClosingParen(func) =>
                "Missing closing parenthesis ')' in function call '"@ + func@ + "'"@,
            ErrorKind::UnknownFunction(name) => "Unknown function: '"@ + name@ + "'"@,
            ErrorKind::PoolOverflow =>
                "Too many distinct constants, variables or functions (at most 65536 of each)"@,
            ErrorKind::TooManyArguments(count) => "Too many arguments in function call: "@
                + decimal_text(count as nat) + " (at most 255)"@,
            ErrorKind::DivisionByZero => "Division by zero"@,
            ErrorKind::StackUnderflow => "Stack underflow (internal error)"@,
            ErrorKind::UnbalancedStack(left) => "Unbalanced stack: "@ + decimal_text(left as nat)
                + " values at the end of the program (internal error)"@,
            ErrorKind::UndefinedVariable(name) => "Undefined variable: '"@ + name@ + "'"@,
            ErrorKind::InvalidFunctionIndex(idx) => "Invalid function index: "@ + decimal_text(
                idx as nat,
            ) + " (internal error)"@,
            ErrorKind::WrongArgumentCount { function, expected, got } => "Function '"@ + function@
                + "' expects "@ + decimal_text(expected as nat) + " argument"@ + plural(expected)
                + ", but got "@ + decimal_text(got as nat),
            ErrorKind::VariableCountMismatch { expected, got } => "Expected "@ + decimal_text(
                expected as nat,
            ) + " variable"@ + plural(expected) + ", but got "@ + decimal_text(got as nat),
            ErrorKind::UnknownOpcode(op) => "Unknown opcode: "@ + decimal_text(op as nat)
                + " (internal error)"@,
        }
    }

    /// Advice that goes with a kind of error, where there is any.
    pub open spec fn advice(self) -> Option<Seq<char>> {
        match self {
            ErrorKind::DivisionByZero => Some("Make sure the divisor is not zero"@),
            ErrorKind::MissingClosingParen | ErrorKind::MissingFunctionClosingParen(_) => Some(
                "Check that all opening parentheses '(' have matching closing parentheses ')'"@,
            ),
            ErrorKind::UndefinedVariable(_) => Some(
                "Make sure all variables are defined in the context before evaluation"@,
            ),
            ErrorKind::WrongArgumentCount { .. } => Some(
                "Check the function documentation for the correct number of arguments"@,
            ),
            ErrorKind::UnknownFunction(_) => Some(
                "Available functions: sin, cos, tan, sqrt, abs, floor, ceil, round, exp, ln, \
                 log10, max, min"@,
            ),
            _ => None,
        }
    }

    /// The message as text.
    pub fn to_string(&self) -> (s: String)
        ensures
            s@ == self.text(),
    {
        match self {
            ErrorKind::UnexpectedCharacter(ch) => {
                let mut s = String::from_str("Unexpected character '");
                s.push(*ch);
                s.append("'");
                s
            },
            ErrorKind::InvalidNumber(text) => {
                let mut s = String::from_str("Invalid number format: '");
                s.append(text.as_str());
                s.append("'");
                s
            },
            ErrorKind::UnexpectedToken(token) => {
                let mut s = String::from_str("Unexpected token: ");
                s.append(token.as_str());
                s
            },
            ErrorKind::ExpectedToken { expected, found } => {
                let mut s = String::from_str("Expected ");
                s.append(expected.as_str());
                s.append(", but found ");
                s.append(found.as_str());
                s
            },
            ErrorKind::MissingClosingParen => String::from_str("Missing closing parenthesis ')'"),
            ErrorKind::MissingFunctionClosingParen(func) => {
                let mut s = String::from_str("Missing closing parenthesis ')' in function call '");
                s.append(func.as_str());
                s.append("'");
                s
            },
            ErrorKind::UnknownFunction(name) => {
                let mut s = String::from_str("Unknown function: '");
                s.append(name.as_str());
                s.append("'");
                s
            },
            ErrorKind::PoolOverflow => String::from_str(
                "Too many distinct constants, variables or functions (at most 65536 of each)",
            ),
            ErrorKind::TooManyArguments(count) => {
                let mut s = String::from_str("Too many arguments in function call: ");
                s.append(decimal(*count).as_str());
                s.append(" (at most 255)");
                s
            },
            ErrorKind::DivisionByZero => String::from_str("Division by zero"),
            ErrorKind::StackUnderflow => String::from_str("Stack underflow (internal error)"),
            ErrorKind::UnbalancedStack(left) => {
                let mut s = String::from_str("Unbalanced stack: ");
                s.append(decimal(*left).as_str());
                s.append(" values at the end of the program (internal error)");
                s
            },
            ErrorKind::UndefinedVariable(name) => {
                let mut s = String::from_str("Undefined variable: '");
                s.append(name.as_str());
                s.append("'");
                s
            },
            ErrorKind::InvalidFunctionIndex(idx) => {
                let mut s = String::from_str("Invalid function index: ");
                s.append(decimal(*idx).as_str());
                s.append(" (internal error)");
                s
            },
            ErrorKind::WrongArgumentCount { function, expected, got } => {
                let mut s = String::from_str("Function '");
                s.append(function.as_str());
                s.append("' expects ");
                s.append(decimal(*expected).as_str());
                s.append(" argument");
                s.append(plural_of(*expected));
                s.append(", but got ");
                s.append(decimal(*got).as_str());
                s
            },
            ErrorKind::VariableCountMismatch { expected, got } => {
                let mut s = String::from_str("Expected ");
                s.append(decimal(*expected).as_str());
                s.append(" variable");
                s.append(plural_of(*expected));
                s.append(", but got ");
                s.append(decimal(*got).as_str());
                s
            },
            ErrorKind::UnknownOpcode(op) => {
                let mut s = String::from_str("Unknown opcode: ");
                s.append(decimal(*op as usize).as_str());
                s.append(" (internal error)");
                s
            },
        }
    }
}

/// The quoted source line with a caret under the column: two blanks, the
/// line number, ` | `, the line, a line feed, then blanks up to the column
/// and `^`. Empty where the text has no such line.
pub open spec fn source_context(source: Seq<char>, pos: Position) -> Seq<char> {
    match line_text(source, pos.line as nat) {
        None => Seq::empty(),
        Some(line) => {
            let label = "  "@ + decimal_text(pos.line as nat) + " | "@;
            label + line + "\n"@ + blanks((label.len() + pos.column - 1) as nat) + "^"@
        },
    }
}

/// An error of any stage, with the place it refers to and the source text
/// where they are known.
#[derive(Debug, Clone)]
pub struct Error {
    pub kind: ErrorKind,
    pub position: Option<Position>,
    pub source: Option<String>,
}

impl Error {
    /// An error of the given kind, without place or source text.
    pub fn new(kind: ErrorKind) -> (e: Self)
        ensures
            e.kind == kind,
            e.position is None,
            e.source is None,
    {
        Self { kind, position: None, source: None }
    }

    /// The error, at the given place.
    pub fn with_position(self, position: Position) -> (e: Self)
        ensures
            e.kind == self.kind,
            e.position == Some(position),
            e.source == self.source,
    {
        Self { kind: self.kind, position: Some(position), source: self.source }
    }

    /// The error, with the source text that its place refers to.
    pub fn with_source(self, source: String) -> (e: Self)
        ensures
            e.kind == self.kind,
            e.position == self.position,
            e.source == Some(source),
    {
        Self { kind: self.kind, position: self.position, source: Some(source) }
    }

    /// The scanner's error for a character that starts no token.
    pub fn unexpected_char(ch: char, position: Position) -> (e: Self)
        ensures
            e.kind == ErrorKind::UnexpectedCharacter(ch),
            e.position == Some(position),
            e.source is None,
    {
        Self::new(ErrorKind::UnexpectedCharacter(ch)).with_position(position)
    }

    /// The parser's error for a token other than the one the grammar asks for.
    pub fn expected_token(expected: &str, found: &str, position: Position) -> (e: Self)
        ensures
            e.kind matches ErrorKind::ExpectedToken { expected: x, found: f } && x@ == expected@
                && f@ == found@,
            e.position == Some(position),
            e.source is None,
    {
        Self::new(
            ErrorKind::ExpectedToken {
                expected: String::from_str(expected),
                found: String::from_str(found),
            },
        ).with_position(position)
    }

    /// The machine's error for a division by zero.
    pub fn division_by_zero() -> (e: Self)
        ensures
            e == Error::plain(ErrorKind::DivisionByZero),
    {
        Self::new(ErrorKind::DivisionByZero)
    }

    /// The error for a function called with the wrong number of arguments.
    pub fn wrong_arg_count(function: &str, expected: usize, got: usize) -> (e: Self)
        ensures
            e.kind matches ErrorKind::WrongArgumentCount { function: f, expected: x, got: g }
                && f@ == function@ && x == expected && g == got,
            e.position is None,
            e.source is None,
    {
        Self::new(
            ErrorKind::WrongArgumentCount { function: String::from_str(function), expected, got },
        )
    }

    /// The whole report: `Error: ` and the message; the place, where known;
    /// the quoted line, where the source text is known too; and the advice,
    /// where the kind has any.
    pub open spec fn text(self) -> Seq<char> {
        "Error: "@ + self.kind.text() + (match self.position {
            Some(pos) => " at "@ + pos.text(),
            None => Seq::empty(),
        }) + (match (self.source, self.position) {
            (Some(source), Some(pos)) => "\n\n"@ + source_context(source@, pos),
            _ => Seq::empty(),
        }) + (match self.kind.advice() {
            Some(hint) => "\n\nHint: "@ + hint,
            None => Seq::empty(),
        })
    }

    /// The report can be laid out: where a source line is quoted, the count
    /// of blanks before the caret fits in a machine word.
    pub open spec fn printable(self) -> bool {
        match (self.source, self.position) {
            (Some(source), Some(pos)) => line_text(source@, pos.line as nat) is Some
                ==> pos.caret_fits(),
            _ => true,
        }
    }

    /// The whole report as text.
    pub fn to_string(&self) -> (s: String)
        requires
            self.printable(),
        ensures
            s@ == self.text(),
    {
        let mut s = String::from_str("Error: ");
        s.append(self.kind.to_string().as_str());
        let ghost head = s@;
        match self.position {
            Some(pos) => {
                s.append(" at ");
                s.append(pos.to_string().as_str());
            },
            None => {
                assert(s@ =~= head + Seq::<char>::empty());
            },
        }
        let ghost placed = s@;
        match &self.source {
            Some(source) => {
                match self.position {
                    Some(pos) => {
                        s.append("\n\n");
                        s.append(self.format_source_context(source.as_str(), pos).as_str());
                    },
                    None => {
                        assert(s@ =~= placed + Seq::<char>::empty());
                    },
                }
            },
            None => {
                assert(s@ =~= placed + Seq::<char>::empty());
            },
        }
        let ghost quoted = s@;
        match self.hint() {
            Some(hint) => {
                s.append("\n\nHint: ");
                s.append(hint);
            },
            None => {
                assert(s@ =~= quoted + Seq::<char>::empty());
            },
        }
        s
    }

    /// Quotes line `pos.line` of the source and points at `pos.column`.
    pub fn format_source_context(&self, source: &str, pos: Position) -> (s: String)
        requires
            line_text(source@, pos.line as nat) is Some ==> pos.caret_fits(),
        ensures
            s@ == source_context(source@, pos),
    {
        match line_of(source, pos.line) {
            None => String::new(),
            Some(line) => {
                let mut label = String::from_str("  ");
                label.append(decimal(pos.line).as_str());
                label.append(" | ");
                let padding = label.as_str().unicode_len();
                proof {
                    reveal_strlit("  ");
                    reveal_strlit(" | ");
                }
                let mut s = label;
                s.append(line.as_str());
                s.append("\n");
                s.append(spaces((padding - 1) + pos.column).as_str());
                s.append("^");
                s
            },
        }
    }

    /// Advice that goes with the error, where there is any.
    pub fn hint(&self) -> (h: Option<&'static str>)
        ensures
            match self.kind.advice() {
                Some(t) => h matches Some(s) && s@ == t,
                None => h is None,
            },
    {
        match &self.kind {
            ErrorKind::DivisionByZero => Some("Make sure the divisor is not zero"),
            ErrorKind::MissingClosingParen | ErrorKind::MissingFunctionClosingParen(_) => Some(
                "Check that all opening parentheses '(' have matching closing parentheses ')'",
            ),
            ErrorKind::UndefinedVariable(_) => Some(
                "Make sure all variables are defined in the context before evaluation",
            ),
            ErrorKind::WrongArgumentCount { .. } => Some(
                "Check the function documentation for the correct number of arguments",
            ),
            ErrorKind::UnknownFunction(_) => Some(
                "Available functions: sin, cos, tan, sqrt, abs, floor, ceil, round, exp, ln, log10, max, min",
            ),
            _ => None,
        }
    }

    /// The error of a kind that carries neither place nor source text.
    pub open spec fn plain(kind: ErrorKind) -> Error {
        Error { kind, position: None, source: None }
    }
}

} // verus!
