//! Expression trees.

use vstd::prelude::*;

verus! {

/// The five infix operators of the language.
#[derive(Debug, Clone, Copy, PartialEq, Eq, Structural)]
pub enum BinaryOp {
    Add,
    Sub,
    Mul,
    Div,
    Pow,
}

/// The prefix operators of the language.
#[derive(Debug, Clone, Copy, PartialEq, Eq, Structural)]
pub enum UnaryOp {
    Neg,
}

/// An expression tree. A number is held as the bits of a double.
#[derive(Debug, PartialEq)]
#[allow(inconsistent_fields)]
pub enum Expr {
    Number(u64),
    Variable(String),
    Binary { op: BinaryOp, left: Box<Expr>, right: Box<Expr> },
    Unary { op: UnaryOp, expr: Box<Expr> },
    Call { func: String, args: Vec<Expr> },
}

/// The mathematical tree that an [`Expr`] stands for.
pub enum Term {
    Number(u64),
    Variable(Seq<char>),
    Binary(BinaryOp, Box<Term>, Box<Term>),
    Neg(Box<Term>),
    Call(Seq<char>, Seq<Term>),
}

/// The tree of one expression.
pub open spec fn term_of(e: Expr) -> Term
    decreases e,
{
    match e {
        Expr::Number(n) => Term::Number(n),
        Expr::Variable(name) => Term::Variable(name@),
        Expr::Binary { op, left, right } => Term::Binary(
            op,
            Box::new(term_of(*left)),
            Box::new(term_of(*right)),
        ),
        Expr::Unary { op, expr } => Term::Neg(Box::new(term_of(*expr))),
        Expr::Call { func, args } => Term::Call(func@, terms(args@)),
    }
}

/// The trees of a list of expressions, in order.
pub open spec fn terms(args: Seq<Expr>) -> Seq<Term>
    decreases args,
{
    if args.len() == 0 {
        Seq::empty()
    } else {
        terms(args.drop_last()).push(term_of(args.last()))
    }
}

impl View for Expr {
    type V = Term;

    open spec fn view(&self) -> Term {
        term_of(*self)
    }
}

/// `terms` maps the view over the list, element by element.
pub proof fn lemma_terms(args: Seq<Expr>)
    ensures
        terms(args).len() == args.len(),
        forall|i: int| 0 <= i < args.len() ==> (#[trigger] terms(args)[i]) == args[i]@,
    decreases args.len(),
{
    if args.len() > 0 {
        lemma_terms(args.drop_last());
    }
}

/// Appending an expression appends its tree.
pub proof fn lemma_terms_push(args: Seq<Expr>, e: Expr)
    ensures
        terms(args.push(e)) == terms(args).push(e@),
{
    assert(args.push(e).drop_last() =~= args);
}

impl Clone for Expr {
    /// A deep copy: the copy stands for the same tree.
    fn clone(&self) -> (r: Self)
        ensures
            r@ == self@,
        decreases *self,
    {
        match self {
            Expr::Number(n) => Expr::Number(*n),
            Expr::Variable(name) => Expr::Variable(name.clone()),
            Expr::Binary { op, left, right } => {
                let l = (**left).clone();
                let r = (**right).clone();
                Expr::Binary { op: *op, left: Box::new(l), right: Box::new(r) }
            },
            Expr::Unary { op, expr } => {
                let inner = (**expr).clone();
                Expr::Unary { op: *op, expr: Box::new(inner) }
            },
            Expr::Call { func, args } => {
                let mut copies: Vec<Expr> = Vec::new();
                let mut i: usize = 0;
                while i < args.len()
                    invariant
                        *self is Call,
                        self->args == *args,
                        i <= args.len(),
                        terms(copies@) == terms(args@.take(i as int)),
                    decreases args.len() - i,
                {
                    proof {
                        assert(decreases_to!(*self => self->args@[i as int]));
                    }
                    let copy = args[i].clone();
                    proof {
                        lemma_terms_push(copies@, copy);
                        lemma_terms_push(args@.take(i as int), args@[i as int]);
                        assert(args@.take(i as int).push(args@[i as int]) =~= args@.take(i + 1));
                    }
                    copies.push(copy);
                    i += 1;
                }
                proof {
                    assert(args@.take(i as int) =~= args@);
                }
                Expr::Call { func: func.clone(), args: copies }
            },
        }
    }
}

} // verus!
