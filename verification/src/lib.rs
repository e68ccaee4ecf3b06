//! Operational semantics of the untyped lambda calculus under a de Bruijn
//! representation: a substitution-based reducer (`beta`), an abstract
//! machine that defers variable resolution through closures (`cek`), a
//! continuation-passing-style transform over a named-variable term type
//! (`cps`), and the standard Church-encoded boolean combinators (`church`).

pub mod beta;
pub mod cek;
pub mod church;
pub mod cps;

use vstd::prelude::*;

verus! {

/// Mathematical model of a lambda term: de Bruijn indices are unbounded
/// naturals, so the spec-level semantics is free of machine arithmetic.
pub enum STerm {
    Var(nat),
    Abs(Box<STerm>),
    App(Box<STerm>, Box<STerm>),
}

/// A lambda term. `Var` holds a de Bruijn index counting binders outward
/// from the occurrence (0 = nearest enclosing abstraction); `Abs` is an
/// abstraction whose body is evaluated under one more binder; `App` applies
/// an operator to an operand.
#[derive(Debug, PartialEq, Eq)]
pub enum Term {
    Var(usize),
    Abs(Box<Term>),
    App(Box<Term>, Box<Term>),
}

impl Term {
    /// The term this value represents, with exact (unbounded) indices.
    pub open spec fn model(self) -> STerm
        decreases self,
    {
        match self {
            Term::Var(n) => STerm::Var(n as nat),
            Term::Abs(b) => STerm::Abs(Box::new(b.model())),
            Term::App(a, b) => STerm::App(Box::new(a.model()), Box::new(b.model())),
        }
    }
}

impl View for Term {
    type V = STerm;

    open spec fn view(&self) -> STerm {
        self.model()
    }
}

impl Clone for Term {
    /// A deep copy: the clone is the same term.
    fn clone(&self) -> (r: Term)
        ensures
            r == *self,
        decreases *self,
    {
        match self {
            Term::Var(n) => Term::Var(*n),
            Term::Abs(b) => Term::Abs(Box::new((&**b).clone())),
            Term::App(a, b) => Term::App(Box::new((&**a).clone()), Box::new((&**b).clone())),
        }
    }
}

/// True of a term whose root is not an application. Despite the
/// traditional name this says nothing about redexes inside abstraction
/// bodies: it is the root-level classifier the reducer's driver stops on.
pub open spec fn is_nf(t: STerm) -> bool {
    !(t matches STerm::App(_, _))
}

/// True unless the term is an application whose operator position can
/// still be reduced at its own root. Checked at the outermost node only.
pub open spec fn is_whnf(t: STerm) -> bool {
    match t {
        STerm::App(e1, _) => is_nf(*e1),
        _ => true,
    }
}

impl Term {
    /// Root-level test: is this term not an application?
    pub fn nf(&self) -> (r: bool)
        ensures
            r == is_nf(self@),
    {
        match self {
            Term::App(_, _) => false,
            _ => true,
        }
    }

    /// Root-level test for weak-head normality: an application whose
    /// operator is itself an application can still take a head step.
    pub fn whnf(&self) -> (r: bool)
        ensures
            r == is_whnf(self@),
    {
        match self {
            Term::App(e1, _) => (&**e1).nf(),
            _ => true,
        }
    }
}

/// The model of the identity combinator, the smallest interesting value.
pub open spec fn identity_model() -> STerm {
    STerm::Abs(Box::new(STerm::Var(0)))
}

/// Shorthand constructor for a variable term.
pub fn var(n: usize) -> (r: Term)
    ensures
        r@ == STerm::Var(n as nat),
{
    Term::Var(n)
}

/// Shorthand constructor for an abstraction.
pub fn abs(body: Term) -> (r: Term)
    ensures
        r@ == STerm::Abs(Box::new(body@)),
{
    Term::Abs(Box::new(body))
}

/// Shorthand constructor for an application.
pub fn app(operator: Term, operand: Term) -> (r: Term)
    ensures
        r@ == STerm::App(Box::new(operator@), Box::new(operand@)),
{
    Term::App(Box::new(operator), Box::new(operand))
}

} // verus!
