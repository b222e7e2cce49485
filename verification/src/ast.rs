//! The abstract syntax tree that the lowering engine consumes.
//!
//! A [`Term`] is an immutable tagged union.  The engine never mutates a term;
//! it walks the tree once, borrowing subtrees.  `Call` and `Error` are
//! reserved variants that the engine rejects with
//! [`LowerError::UnsupportedConstruct`](crate::state::LowerError).

use vstd::prelude::*;

verus! {

/// The binary operators of the expression language.
#[derive(Clone, Copy, Debug, PartialEq, Eq, Structural)]
pub enum BinaryOp {
    Add,
    Sub,
    Mul,
    Div,
    Rem,
    Lt,
    Gt,
    Lte,
    Gte,
    Eq,
    Neq,
    And,
    Or,
}

/// The syntactic kind of a term; errors carry it to name the offending
/// node.
#[derive(Clone, Copy, Debug, PartialEq, Eq, Structural)]
pub enum TermKind {
    Int,
    Str,
    Bool,
    Binary,
    Let,
    Var,
    If,
    Print,
    Tuple,
    First,
    Second,
    Function,
    Call,
    Error,
}

/// One node of the expression language.
pub enum Term {
    /// An integer literal.
    Int(i64),
    /// A string literal.
    Str(String),
    /// A boolean literal.
    Bool(bool),
    /// A binary expression `lhs op rhs`.
    Binary { op: BinaryOp, lhs: Box<Term>, rhs: Box<Term> },
    /// `let name = value; next`.
    Let { name: String, value: Box<Term>, next: Box<Term> },
    /// A variable reference.
    Var(String),
    /// `if condition { then } else { otherwise }`; the condition must be
    /// statically known, the engine never emits a runtime branch.
    If { condition: Box<Term>, then: Box<Term>, otherwise: Box<Term> },
    /// `print(value)`; registers the printed slot in the print queue.
    Print(Box<Term>),
    /// A two-field tuple literal.
    Tuple { first: Box<Term>, second: Box<Term> },
    /// The first field of a tuple.
    First(Box<Term>),
    /// The second field of a tuple.
    Second(Box<Term>),
    /// An anonymous function definition; its body is lowered under a scope of
    /// its own.
    Function { parameters: Vec<String>, body: Box<Term> },
    /// A function call; reserved, not lowered by this engine.
    Call { callee: Box<Term>, arguments: Vec<Term> },
    /// A parse error carried in the tree; reserved, not lowered.
    Error(String),
}

/// The kind of a term.
pub open spec fn term_kind(t: Term) -> TermKind {
    match t {
        Term::Int(_) => TermKind::Int,
        Term::Str(_) => TermKind::Str,
        Term::Bool(_) => TermKind::Bool,
        Term::Binary { .. } => TermKind::Binary,
        Term::Let { .. } => TermKind::Let,
        Term::Var(_) => TermKind::Var,
        Term::If { .. } => TermKind::If,
        Term::Print(_) => TermKind::Print,
        Term::Tuple { .. } => TermKind::Tuple,
        Term::First(_) => TermKind::First,
        Term::Second(_) => TermKind::Second,
        Term::Function { .. } => TermKind::Function,
        Term::Call { .. } => TermKind::Call,
        Term::Error(_) => TermKind::Error,
    }
}

/// The kind of a term, for error reports.
pub fn term_kind_of(t: &Term) -> (r: TermKind)
    ensures
        r == term_kind(*t),
{
    match t {
        Term::Int(_) => TermKind::Int,
        Term::Str(_) => TermKind::Str,
        Term::Bool(_) => TermKind::Bool,
        Term::Binary { .. } => TermKind::Binary,
        Term::Let { .. } => TermKind::Let,
        Term::Var(_) => TermKind::Var,
        Term::If { .. } => TermKind::If,
        Term::Print(_) => TermKind::Print,
        Term::Tuple { .. } => TermKind::Tuple,
        Term::First(_) => TermKind::First,
        Term::Second(_) => TermKind::Second,
        Term::Function { .. } => TermKind::Function,
        Term::Call { .. } => TermKind::Call,
        Term::Error(_) => TermKind::Error,
    }
}

} // verus!
