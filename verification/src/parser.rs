//! The parser: a precedence climber.
//!
//! What the parser makes of a text is stated by four functions on the text
//! and a cursor, [`expression`], [`prefix`], [`climb`] and [`arguments`],
//! which the methods of [`Parser`] are proved to compute. The binding
//! powers are those of [`infix_power`] and [`PREFIX_POWER`].

use crate::arith::{agrees, total, Operation, Oracle};
use crate::ast::{lemma_terms_push, terms, BinaryOp, Expr, Term, UnaryOp};
use crate::error::{Error, ErrorKind, Fault};
use crate::lexer::{place, scan, Lexer, Scanned};
use crate::token::{Symbol, Token};
use vstd::prelude::*;

verus! {

/// The right binding power of prefix `-`. It is above the left power of
/// every infix operator, so the operand of `-` ends before the next infix
/// operator: `-x ^ 2` is `(-x) ^ 2`, and `-a * b` is `(-a) * b`.
pub const PREFIX_POWER: u8 = 99;

/// The parser's view of the text: the current token, the index at which it
/// starts, and the index at which scanning goes on.
pub struct Cursor {
    pub token: Symbol,
    pub start: int,
    pub pos: int,
}

/// An error, with the index of the text that it refers to.
pub struct Failure {
    pub fault: Fault,
    pub at: int,
}

/// A tree, with the cursor behind what was parsed into it.
pub type Parsed = Result<(Term, Cursor), Failure>;

/// The left and right binding power of a token in infix position. A token
/// that is no operator binds with power zero.
pub open spec fn infix_power(t: Symbol) -> (u8, u8) {
    match t {
        Symbol::Plus | Symbol::Minus => (10, 11),
        Symbol::Star | Symbol::Slash => (20, 21),
        Symbol::Caret => (30, 29),
        _ => (0, 0),
    }
}

/// The operator that a token is in infix position.
pub open spec fn infix_op(t: Symbol) -> Option<BinaryOp> {
    match t {
        Symbol::Plus => Some(BinaryOp::Add),
        Symbol::Minus => Some(BinaryOp::Sub),
        Symbol::Star => Some(BinaryOp::Mul),
        Symbol::Slash => Some(BinaryOp::Div),
        Symbol::Caret => Some(BinaryOp::Pow),
        _ => None,
    }
}

/// A token that ends a sub-expression without being consumed.
pub open spec fn ends_expression(t: Symbol) -> bool {
    t is EOF || t is RParen || t is Comma
}

/// The cursor `next` lies within the text, further on than `cur`.
pub open spec fn ahead(s: Seq<char>, cur: Cursor, next: Cursor) -> bool {
    cur.start < next.start <= s.len()
}

/// The cursor moved to the next token.
pub open spec fn advance(s: Seq<char>, cur: Cursor, o: Oracle) -> Result<Cursor, Failure> {
    match scan(s, cur.pos, o) {
        Scanned::Token { token, start, end } => Ok(Cursor { token, start, pos: end }),
        Scanned::Fault { fault, at, end } => Err(Failure { fault, at }),
    }
}

/// An expression whose operators bind at least as tightly as `min_bp`:
/// a prefix, then the infix operators that follow it.
///
/// The tests of the form `ahead(..)` hold of every text: a token that is not
/// the end of the input is never empty.
pub open spec fn expression(s: Seq<char>, cur: Cursor, min_bp: u8, o: Oracle) -> Parsed
    decreases s.len() - cur.start, 3int,
{
    match prefix(s, cur, o) {
        Err(f) => Err(f),
        Ok((left, next)) => if ahead(s, cur, next) {
            climb(s, left, next, min_bp, o)
        } else {
            arbitrary()
        },
    }
}

/// What starts an expression: a number; a name, which is a call where `(`
/// follows it and a variable where not; `-` and its operand; or an
/// expression in parentheses.
pub open spec fn prefix(s: Seq<char>, cur: Cursor, o: Oracle) -> Parsed
    decreases s.len() - cur.start, 2int,
{
    match advance(s, cur, o) {
        Err(f) => Err(f),
        Ok(next) => match cur.token {
            Symbol::Number(n) => Ok((Term::Number(n), next)),
            Symbol::Identifier(name) => if next.token is LParen {
                match advance(s, next, o) {
                    Err(f) => Err(f),
                    Ok(inner) => {
                        let listed = if inner.token is RParen {
                            Ok((Seq::empty(), inner))
                        } else if ahead(s, cur, inner) {
                            arguments(s, inner, Seq::empty(), o)
                        } else {
                            arbitrary()
                        };
                        match listed {
                            Err(f) => Err(f),
                            Ok((args, last)) => if !(last.token is RParen) {
                                Err(
                                    Failure {
                                        fault: Fault::MissingFunctionClosingParen(name),
                                        at: last.start,
                                    },
                                )
                            } else {
                                match advance(s, last, o) {
                                    Err(f) => Err(f),
                                    Ok(after) => Ok((Term::Call(name, args), after)),
                                }
                            },
                        }
                    },
                }
            } else {
                Ok((Term::Variable(name), next))
            },
            Symbol::Minus => if ahead(s, cur, next) {
                match expression(s, next, PREFIX_POWER, o) {
                    Err(f) => Err(f),
                    Ok((operand, after)) => Ok((Term::Neg(Box::new(operand)), after)),
                }
            } else {
                arbitrary()
            },
            Symbol::LParen => if ahead(s, cur, next) {
                match expression(s, next, 0, o) {
                    Err(f) => Err(f),
                    Ok((inner, last)) => if !(last.token is RParen) {
                        Err(Failure { fault: Fault::MissingClosingParen, at: last.start })
                    } else {
                        match advance(s, last, o) {
                            Err(f) => Err(f),
                            Ok(after) => Ok((inner, after)),
                        }
                    },
                }
            } else {
                arbitrary()
            },
            _ => Err(Failure { fault: Fault::UnexpectedToken(cur.token.name()), at: cur.start }),
        },
    }
}

/// The infix operators that follow `left`, as long as they bind at least as
/// tightly as `min_bp`. Each operand is parsed at its operator's right
/// binding power. A token that is no operator is taken for one where
/// `min_bp` is zero, and refused once its right side has been parsed.
pub open spec fn climb(s: Seq<char>, left: Term, cur: Cursor, min_bp: u8, o: Oracle) -> Parsed
    decreases s.len() - cur.start, 1int,
{
    if ends_expression(cur.token) || infix_power(cur.token).0 < min_bp {
        Ok((left, cur))
    } else {
        match advance(s, cur, o) {
            Err(f) => Err(f),
            Ok(next) => if ahead(s, cur, next) {
                match expression(s, next, infix_power(cur.token).1, o) {
                    Err(f) => Err(f),
                    Ok((right, after)) => match infix_op(cur.token) {
                        None => Err(
                            Failure {
                                fault: Fault::UnexpectedToken(cur.token.name()),
                                at: cur.start,
                            },
                        ),
                        Some(op) => if ahead(s, cur, after) {
                            climb(
                                s,
                                Term::Binary(op, Box::new(left), Box::new(right)),
                                after,
                                min_bp,
                                o,
                            )
                        } else {
                            arbitrary()
                        },
                    },
                }
            } else {
                arbitrary()
            },
        }
    }
}

/// The arguments of a call, separated by commas, after those in `done`.
pub open spec fn arguments(s: Seq<char>, cur: Cursor, done: Seq<Term>, o: Oracle) -> Result<
    (Seq<Term>, Cursor),
    Failure,
>
    decreases s.len() - cur.start, 4int,
{
    match expression(s, cur, 0, o) {
        Err(f) => Err(f),
        Ok((arg, next)) => if next.token is Comma {
            match advance(s, next, o) {
                Err(f) => Err(f),
                Ok(after) => if ahead(s, cur, after) {
                    arguments(s, after, done.push(arg), o)
                } else {
                    arbitrary()
                },
            }
        } else {
            Ok((done.push(arg), next))
        },
    }
}

/// The tree of a whole text: the expression that starts at its first
/// token. What follows that expression is not looked at.
pub open spec fn parse_text(s: Seq<char>, o: Oracle) -> Result<Term, Failure> {
    match scan(s, 0, o) {
        Scanned::Fault { fault, at, end } => Err(Failure { fault, at }),
        Scanned::Token { token, start, end } => match expression(
            s,
            Cursor { token, start, pos: end },
            0,
            o,
        ) {
            Err(f) => Err(f),
            Ok((t, _)) => Ok(t),
        },
    }
}

/// The error `e` is the failure `f`, placed in the text `s`.
pub open spec fn failed(e: Error, s: Seq<char>, f: Failure) -> bool {
    &&& e.kind@ == f.fault
    &&& e.position == place(s, f.at)
    &&& e.source is None
}

/// The parser: a precedence climber over the tokens of a scanner, with one
/// token of lookahead.
pub struct Parser<'a> {
    pub lexer: Lexer<'a>,
    pub current_token: Token,
    /// The index at which the current token starts.
    pub current_start: usize,
}

/// The binding powers of a token in infix position.
pub fn bp_infix(token: &Token) -> (bp: (u8, u8))
    ensures
        bp == infix_power(token@),
{
    match token {
        Token::Plus | Token::Minus => (10, 11),
        Token::Star | Token::Slash => (20, 21),
        Token::Caret => (30, 29),
        _ => (0, 0),
    }
}

/// The right binding power of a token in prefix position.
pub fn bp_prefix(token: &Token) -> (bp: ((), u8))
    ensures
        bp.1 == if token@ is Minus {
            PREFIX_POWER
        } else {
            0
        },
{
    match token {
        Token::Minus => ((), PREFIX_POWER),
        _ => ((), 0),
    }
}

impl<'a> Parser<'a> {
    /// The parser's cursor.
    pub open spec fn cursor(&self) -> Cursor {
        Cursor {
            token: self.current_token@,
            start: self.current_start as int,
            pos: self.lexer.pos as int,
        }
    }

    /// The text that is parsed.
    pub open spec fn text(&self) -> Seq<char> {
        self.lexer.input@
    }

    /// The scanner is well formed and stands behind the current token,
    /// which is empty only at the end of the input.
    pub open spec fn wf(&self) -> bool {
        &&& self.lexer.wf()
        &&& self.current_start <= self.lexer.pos
        &&& !(self.current_token@ is EOF) ==> self.current_start < self.lexer.pos
    }

    /// A parser that stands at the first token that the scanner yields.
    pub fn new<F: Fn(Operation) -> u64>(lexer: Lexer<'a>, unit: &F) -> (r: Result<Self, Error>)
        requires
            lexer.wf(),
            total(unit),
        ensures
            r matches Ok(p) ==> p.wf() && p.lexer.input == lexer.input,
            forall|o: Oracle| #[trigger]
                agrees(unit, o) ==> match scan(lexer.input@, lexer.pos as int, o) {
                    Scanned::Token { token, start, end } => r matches Ok(p) && p.cursor() == (Cursor {
                        token,
                        start,
                        pos: end,
                    }),
                    Scanned::Fault { fault, at, end } => r matches Err(e) && failed(
                        e,
                        lexer.input@,
                        Failure { fault, at },
                    ),
                },
    {
        let mut lexer = lexer;
        match lexer.next_token(unit) {
            Err(e) => Err(e),
            Ok(current_token) => {
                let current_start = lexer.start;
                Ok(Self { lexer, current_token, current_start })
            },
        }
    }

    /// Moves to the next token and hands back the one that was current.
    fn advance<F: Fn(Operation) -> u64>(&mut self, unit: &F) -> (r: Result<Token, Error>)
        requires
            old(self).wf(),
            total(unit),
        ensures
            final(self).wf(),
            final(self).lexer.input == old(self).lexer.input,
            final(self).current_start >= old(self).current_start,
            r matches Ok(t) ==> t == old(self).current_token,
            r is Ok ==> final(self).current_start >= old(self).lexer.pos,
            r is Err ==> final(self).current_token == old(self).current_token,
            r is Err ==> final(self).current_start == old(self).current_start,
            forall|o: Oracle| #[trigger]
                agrees(unit, o) ==> match advance(old(self).text(), old(self).cursor(), o) {
                    Ok(next) => r is Ok && final(self).cursor() == next,
                    Err(f) => r matches Err(e) && failed(e, old(self).text(), f),
                },
    {
        match self.lexer.next_token(unit) {
            Err(e) => Err(e),
            Ok(next) => {
                let mut token = next;
                core::mem::swap(&mut self.current_token, &mut token);
                self.current_start = self.lexer.start;
                Ok(token)
            },
        }
    }

    /// Parses the expression that starts at the current token.
    pub fn parse<F: Fn(Operation) -> u64>(&mut self, unit: &F) -> (r: Result<Expr, Error>)
        requires
            old(self).wf(),
            total(unit),
        ensures
            final(self).wf(),
            final(self).lexer.input == old(self).lexer.input,
            final(self).current_start >= old(self).current_start,
            forall|o: Oracle| #[trigger]
                agrees(unit, o) ==> match expression(old(self).text(), old(self).cursor(), 0, o) {
                    Ok((t, next)) => r matches Ok(e) && e@ == t && final(self).cursor() == next,
                    Err(f) => r matches Err(e) && failed(e, old(self).text(), f),
                },
    {
        self.expression(0, unit)
    }

    /// Parses an expression whose operators bind at least as tightly as
    /// `min_bp`.
    fn expression<F: Fn(Operation) -> u64>(&mut self, min_bp: u8, unit: &F) -> (r: Result<
        Expr,
        Error,
    >)
        requires
            old(self).wf(),
            total(unit),
        ensures
            final(self).wf(),
            final(self).lexer.input == old(self).lexer.input,
            final(self).current_start >= old(self).current_start,
            r is Ok ==> final(self).current_start > old(self).current_start,
            forall|o: Oracle| #[trigger]
                agrees(unit, o) ==> match expression(
                    old(self).text(),
                    old(self).cursor(),
                    min_bp,
                    o,
                ) {
                    Ok((t, next)) => r matches Ok(e) && e@ == t && final(self).cursor() == next,
                    Err(f) => r matches Err(e) && failed(e, old(self).text(), f),
                },
        decreases old(self).lexer.input@.len() - old(self).current_start, 3int,
    {
        let ghost s = self.text();
        let ghost entry = self.cursor();
        let mut left = match self.nud(unit) {
            Err(e) => {
                return Err(e);
            },
            Ok(e) => e,
        };
        loop
            invariant
                self.wf(),
                total(unit),
                self.lexer.input == old(self).lexer.input,
                s == old(self).text(),
                entry == old(self).cursor(),
                self.current_start > old(self).current_start,
                forall|o: Oracle| #[trigger]
                    agrees(unit, o) ==> expression(s, entry, min_bp, o) == climb(
                        s,
                        left@,
                        self.cursor(),
                        min_bp,
                        o,
                    ),
            decreases self.lexer.input@.len() - self.current_start,
        {
            if matches!(self.current_token, Token::EOF | Token::RParen | Token::Comma) {
                return Ok(left);
            }
            let (l_bp, r_bp) = bp_infix(&self.current_token);
            if l_bp < min_bp {
                return Ok(left);
            }
            let at = self.current_start;
            let token = match self.advance(unit) {
                Err(e) => {
                    return Err(e);
                },
                Ok(t) => t,
            };
            left = match self.led(left, token, at, r_bp, unit) {
                Err(e) => {
                    return Err(e);
                },
                Ok(e) => e,
            };
        }
    }

    /// Parses what starts an expression.
    fn nud<F: Fn(Operation) -> u64>(&mut self, unit: &F) -> (r: Result<Expr, Error>)
        requires
            old(self).wf(),
            total(unit),
        ensures
            final(self).wf(),
            final(self).lexer.input == old(self).lexer.input,
            final(self).current_start >= old(self).current_start,
            r is Ok ==> final(self).current_start > old(self).current_start,
            forall|o: Oracle| #[trigger]
                agrees(unit, o) ==> match prefix(old(self).text(), old(self).cursor(), o) {
                    Ok((t, next)) => r matches Ok(e) && e@ == t && final(self).cursor() == next,
                    Err(f) => r matches Err(e) && failed(e, old(self).text(), f),
                },
        decreases old(self).lexer.input@.len() - old(self).current_start, 2int,
    {
        let at = self.current_start;
        let token = match self.advance(unit) {
            Err(e) => {
                return Err(e);
            },
            Ok(t) => t,
        };
        match token {
            Token::Number(n) => {
                return Ok(Expr::Number(n));
            },
            Token::Identifier(name) => {
                if matches!(self.current_token, Token::LParen) {
                    match self.advance(unit) {
                        Err(e) => {
                            return Err(e);
                        },
                        Ok(_) => {},
                    }
                    let args = if matches!(self.current_token, Token::RParen) {
                        assert(terms(Seq::<Expr>::empty()) =~= Seq::<Term>::empty());
                        Vec::new()
                    } else {
                        match self.arguments(unit) {
                            Err(e) => {
                                return Err(e);
                            },
                            Ok(args) => args,
                        }
                    };
                    if !matches!(self.current_token, Token::RParen) {
                        let position = self.lexer.locate(self.current_start);
                        return Err(
                            Error {
                                kind: ErrorKind::MissingFunctionClosingParen(name),
                                position,
                                source: None,
                            },
                        );
                    }
                    match self.advance(unit) {
                        Err(e) => {
                            return Err(e);
                        },
                        Ok(_) => {
                            return Ok(Expr::Call { func: name, args });
                        },
                    }
                } else {
                    return Ok(Expr::Variable(name));
                }
            },
            Token::Minus => {
                let ((), r_bp) = bp_prefix(&token);
                match self.expression(r_bp, unit) {
                    Err(e) => {
                        return Err(e);
                    },
                    Ok(operand) => {
                        return Ok(Expr::Unary { op: UnaryOp::Neg, expr: Box::new(operand) });
                    },
                }
            },
            Token::LParen => {
                let inner = match self.expression(0, unit) {
                    Err(e) => {
                        return Err(e);
                    },
                    Ok(e) => e,
                };
                if !matches!(self.current_token, Token::RParen) {
                    let position = self.lexer.locate(self.current_start);
                    return Err(
                        Error { kind: ErrorKind::MissingClosingParen, position, source: None },
                    );
                }
                match self.advance(unit) {
                    Err(e) => {
                        return Err(e);
                    },
                    Ok(_) => {
                        return Ok(inner);
                    },
                }
            },
            other => {
                let position = self.lexer.locate(at);
                Err(
                    Error {
                        kind: ErrorKind::UnexpectedToken(other.describe()),
                        position,
                        source: None,
                    },
                )
            },
        }
    }

    /// Parses the arguments of a call, separated by commas.
    fn arguments<F: Fn(Operation) -> u64>(&mut self, unit: &F) -> (r: Result<Vec<Expr>, Error>)
        requires
            old(self).wf(),
            total(unit),
        ensures
            final(self).wf(),
            final(self).lexer.input == old(self).lexer.input,
            final(self).current_start >= old(self).current_start,
            r is Ok ==> final(self).current_start > old(self).current_start,
            forall|o: Oracle| #[trigger]
                agrees(unit, o) ==> match arguments(
                    old(self).text(),
                    old(self).cursor(),
                    Seq::empty(),
                    o,
                ) {
                    Ok((args, next)) => r matches Ok(v) && terms(v@) == args && final(self).cursor()
                        == next,
                    Err(f) => r matches Err(e) && failed(e, old(self).text(), f),
                },
        decreases old(self).lexer.input@.len() - old(self).current_start, 5int,
    {
        let ghost s = self.text();
        let ghost entry = self.cursor();
        let mut args: Vec<Expr> = Vec::new();
        loop
            invariant
                self.wf(),
                total(unit),
                self.lexer.input == old(self).lexer.input,
                s == old(self).text(),
                entry == old(self).cursor(),
                self.current_start >= old(self).current_start,
                args@.len() > 0 ==> self.current_start > old(self).current_start,
                forall|o: Oracle| #[trigger]
                    agrees(unit, o) ==> arguments(s, entry, Seq::empty(), o) == arguments(
                        s,
                        self.cursor(),
                        terms(args@),
                        o,
                    ),
            decreases self.lexer.input@.len() - self.current_start,
        {
            let arg = match self.expression(0, unit) {
                Err(e) => {
                    return Err(e);
                },
                Ok(e) => e,
            };
            proof {
                lemma_terms_push(args@, arg);
            }
            args.push(arg);
            if matches!(self.current_token, Token::Comma) {
                match self.advance(unit) {
                    Err(e) => {
                        return Err(e);
                    },
                    Ok(_) => {},
                }
            } else {
                return Ok(args);
            }
        }
    }

    /// Parses the right operand of the infix operator `token`, which starts
    /// at index `at`, and joins it to `left`.
    fn led<F: Fn(Operation) -> u64>(
        &mut self,
        left: Expr,
        token: Token,
        at: usize,
        r_bp: u8,
        unit: &F,
    ) -> (r: Result<Expr, Error>)
        requires
            old(self).wf(),
            total(unit),
            at <= old(self).current_start,
        ensures
            final(self).wf(),
            final(self).lexer.input == old(self).lexer.input,
            final(self).current_start >= old(self).current_start,
            r is Ok ==> final(self).current_start > old(self).current_start,
            forall|o: Oracle| #[trigger]
                agrees(unit, o) ==> match expression(old(self).text(), old(self).cursor(), r_bp, o) {
                    Err(f) => r matches Err(e) && failed(e, old(self).text(), f),
                    Ok((right, next)) => match infix_op(token@) {
                        None => r matches Err(e) && failed(
                            e,
                            old(self).text(),
                            Failure { fault: Fault::UnexpectedToken(token@.name()), at: at as int },
                        ),
                        Some(op) => r matches Ok(e) && e@ == Term::Binary(
                            op,
                            Box::new(left@),
                            Box::new(right),
                        ) && final(self).cursor() == next,
                    },
                },
        decreases old(self).lexer.input@.len() - old(self).current_start, 4int,
    {
        let right = match self.expression(r_bp, unit) {
            Err(e) => {
                return Err(e);
            },
            Ok(e) => e,
        };
        let op = match token {
            Token::Plus => BinaryOp::Add,
            Token::Minus => BinaryOp::Sub,
            Token::Star => BinaryOp::Mul,
            Token::Slash => BinaryOp::Div,
            Token::Caret => BinaryOp::Pow,
            other => {
                let position = self.lexer.locate(at);
                return Err(
                    Error {
                        kind: ErrorKind::UnexpectedToken(other.describe()),
                        position,
                        source: None,
                    },
                );
            },
        };
        Ok(Expr::Binary { op, left: Box::new(left), right: Box::new(right) })
    }
}

} // verus!
