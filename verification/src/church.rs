//! Church-encoded boolean combinators, used as sample terms and test data.

use vstd::prelude::*;

use crate::{STerm, Term, abs, app, var};

verus! {

/// The model of `tru`: the two-argument selector of its first argument.
pub open spec fn tru_model() -> STerm {
    STerm::Abs(Box::new(STerm::Abs(Box::new(STerm::Var(1)))))
}

/// The model of `fls`: the two-argument selector of its second argument.
pub open spec fn fls_model() -> STerm {
    STerm::Abs(Box::new(STerm::Abs(Box::new(STerm::Var(0)))))
}

/// The model of `test`: applies a boolean to the two branch arguments.
pub open spec fn test_model() -> STerm {
    STerm::Abs(
        Box::new(
            STerm::Abs(
                Box::new(
                    STerm::Abs(
                        Box::new(
                            STerm::App(
                                Box::new(
                                    STerm::App(Box::new(STerm::Var(2)), Box::new(STerm::Var(1))),
                                ),
                                Box::new(STerm::Var(0)),
                            ),
                        ),
                    ),
                ),
            ),
        ),
    )
}

/// The model of `and`: applies its first boolean to the second and `fls`.
pub open spec fn and_model() -> STerm {
    STerm::Abs(
        Box::new(
            STerm::Abs(
                Box::new(
                    STerm::App(
                        Box::new(STerm::App(Box::new(STerm::Var(1)), Box::new(STerm::Var(0)))),
                        Box::new(fls_model()),
                    ),
                ),
            ),
        ),
    )
}

/// Church truth: a two-argument function returning its first argument.
pub fn tru() -> (r: Term)
    ensures
        r@ == tru_model(),
{
    abs(abs(var(1)))
}

/// Church falsehood: a two-argument function returning its second argument.
pub fn fls() -> (r: Term)
    ensures
        r@ == fls_model(),
{
    abs(abs(var(0)))
}

/// Church conditional: applies a boolean to the two branches.
pub fn test() -> (r: Term)
    ensures
        r@ == test_model(),
{
    abs(abs(abs(app(app(var(2), var(1)), var(0)))))
}

/// Church conjunction: `and b c` reduces to `c` when `b` is `tru`,
/// and to `fls` otherwise.
pub fn and() -> (r: Term)
    ensures
        r@ == and_model(),
{
    abs(abs(app(app(var(1), var(0)), fls())))
}

} // verus!
