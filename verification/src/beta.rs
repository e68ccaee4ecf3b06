//! The substitution-based evaluator: index shifting and substitution over
//! a binder-depth cutoff, a single small step, and a driver that repeats
//! the step to a fixed point.
//!
//! The spec-level semantics (`sshift`, `ssubst`, `sstep`, `srun`) works on
//! `STerm` with unbounded indices; the executable functions mirror it
//! exactly wherever the index arithmetic fits in `usize`, which the `fits`
//! predicates express.

use vstd::prelude::*;

use crate::{STerm, Term, identity_model, is_nf};

verus! {

/// Shifting at cutoff `c`: every variable bound outside the walked region
/// (index at least the cutoff) moves by `d`; bound variables are untouched.
/// The clamp at zero never engages under `shift_fits`.
pub open spec fn sshift(t: STerm, d: int, c: nat) -> STerm
    decreases t,
{
    match t {
        STerm::Var(n) => if n >= c {
            STerm::Var(if n + d >= 0 { (n + d) as nat } else { 0 })
        } else {
            STerm::Var(n)
        },
        STerm::Abs(b) => STerm::Abs(Box::new(sshift(*b, d, c + 1))),
        STerm::App(a, b) => STerm::App(Box::new(sshift(*a, d, c)), Box::new(sshift(*b, d, c))),
    }
}

/// Every index the shift touches stays within `usize` after moving by `d`.
pub open spec fn shift_fits(t: STerm, d: int, c: nat) -> bool
    decreases t,
{
    match t {
        STerm::Var(n) => n >= c ==> 0 <= n + d <= usize::MAX,
        STerm::Abs(b) => shift_fits(*b, d, c + 1),
        STerm::App(a, b) => shift_fits(*a, d, c) && shift_fits(*b, d, c),
    }
}

/// Substitution at cutoff `c`: every variable equal to the cutoff becomes a
/// copy of `s` shifted by the cutoff, so the replacement's free variables
/// stay correctly indexed once spliced into the deeper scope.
pub open spec fn ssubst(t: STerm, s: STerm, c: nat) -> STerm
    decreases t,
{
    match t {
        STerm::Var(n) => if n == c {
            sshift(s, c as int, 0)
        } else {
            STerm::Var(n)
        },
        STerm::Abs(b) => STerm::Abs(Box::new(ssubst(*b, s, c + 1))),
        STerm::App(a, b) => STerm::App(Box::new(ssubst(*a, s, c)), Box::new(ssubst(*b, s, c))),
    }
}

/// The shifts a substitution performs stay within machine bounds.
pub open spec fn subst_fits(t: STerm, s: STerm, c: nat) -> bool
    decreases t,
{
    match t {
        STerm::Var(n) => n == c ==> c <= isize::MAX && shift_fits(s, c as int, 0),
        STerm::Abs(b) => subst_fits(*b, s, c + 1),
        STerm::App(a, b) => subst_fits(*a, s, c) && subst_fits(*b, s, c),
    }
}

/// Beta-reduction substitution: shift the replacement under the binder
/// about to be stripped, substitute it for index 0, then shift the result
/// back down to account for the stripped binder.
pub open spec fn ssubst_top(t: STerm, s: STerm) -> STerm {
    sshift(ssubst(t, sshift(s, 1, 0), 0), -1, 0)
}

/// All three walks of `ssubst_top` stay within machine bounds.
pub open spec fn subst_top_fits(t: STerm, s: STerm) -> bool {
    &&& shift_fits(s, 1, 0)
    &&& subst_fits(t, sshift(s, 1, 0), 0)
    &&& shift_fits(ssubst(t, sshift(s, 1, 0), 0), -1, 0)
}

/// Every index anywhere in the term is below `b`.
pub open spec fn vars_lt(t: STerm, b: int) -> bool
    decreases t,
{
    match t {
        STerm::Var(n) => n < b,
        STerm::Abs(x) => vars_lt(*x, b),
        STerm::App(x, y) => vars_lt(*x, b) && vars_lt(*y, b),
    }
}

/// A term read off an executable value only holds `usize` indices.
proof fn lemma_model_vars_bounded(t: Term)
    ensures
        vars_lt(t@, usize::MAX as int + 1),
    decreases t,
{
    match t {
        Term::Var(_) => {}
        Term::Abs(b) => lemma_model_vars_bounded(*b),
        Term::App(a, b) => {
            lemma_model_vars_bounded(*a);
            lemma_model_vars_bounded(*b);
        }
    }
}

/// An index bound stays a bound when it grows.
proof fn lemma_vars_lt_mono(t: STerm, a: int, b: int)
    requires
        vars_lt(t, a),
        a <= b,
    ensures
        vars_lt(t, b),
    decreases t,
{
    match t {
        STerm::Var(_) => {}
        STerm::Abs(x) => lemma_vars_lt_mono(*x, a, b),
        STerm::App(x, y) => {
            lemma_vars_lt_mono(*x, a, b);
            lemma_vars_lt_mono(*y, a, b);
        }
    }
}

/// A cutoff above every index makes shifting the identity.
proof fn lemma_shift_above_all(t: STerm, d: int, c: nat)
    requires
        vars_lt(t, c as int),
    ensures
        sshift(t, d, c) == t,
        shift_fits(t, d, c),
    decreases t,
{
    match t {
        STerm::Var(_) => {}
        STerm::Abs(b) => {
            lemma_vars_lt_mono(*b, c as int, c as int + 1);
            lemma_shift_above_all(*b, d, c + 1);
        }
        STerm::App(a, b) => {
            lemma_shift_above_all(*a, d, c);
            lemma_shift_above_all(*b, d, c);
        }
    }
}

/// A cutoff above every index makes substitution the identity.
proof fn lemma_subst_above_all(t: STerm, s: STerm, c: nat)
    requires
        vars_lt(t, c as int),
    ensures
        ssubst(t, s, c) == t,
        subst_fits(t, s, c),
    decreases t,
{
    match t {
        STerm::Var(_) => {}
        STerm::Abs(b) => {
            lemma_vars_lt_mono(*b, c as int, c as int + 1);
            lemma_subst_above_all(*b, s, c + 1);
        }
        STerm::App(a, b) => {
            lemma_subst_above_all(*a, s, c);
            lemma_subst_above_all(*b, s, c);
        }
    }
}

/// The tree walk behind `shift`, carrying the count of binders crossed.
fn shift_walk(t: &Term, d: isize, c: usize) -> (r: Term)
    requires
        d > isize::MIN,
        shift_fits(t@, d as int, c as nat),
    ensures
        r@ == sshift(t@, d as int, c as nat),
    decreases *t,
{
    match t {
        Term::Var(n) => {
            if *n >= c {
                let m: usize = if d >= 0 {
                    *n + (d as usize)
                } else {
                    *n - ((-d) as usize)
                };
                Term::Var(m)
            } else {
                Term::Var(*n)
            }
        }
        Term::Abs(b) => {
            if c == usize::MAX {
                // A cutoff past every representable index: nothing to move.
                let copy = (&**b).clone();
                proof {
                    lemma_model_vars_bounded(copy);
                    lemma_shift_above_all(copy@, d as int, (c + 1) as nat);
                }
                Term::Abs(Box::new(copy))
            } else {
                Term::Abs(Box::new(shift_walk(&**b, d, c + 1)))
            }
        }
        Term::App(a, b) => Term::App(
            Box::new(shift_walk(&**a, d, c)),
            Box::new(shift_walk(&**b, d, c)),
        ),
    }
}

/// Shifts every free variable of `t` by `d`, adjusting indices for a term
/// that crosses one or more scope boundaries.
pub fn shift(t: &Term, d: isize) -> (r: Term)
    requires
        d > isize::MIN,
        shift_fits(t@, d as int, 0),
    ensures
        r@ == sshift(t@, d as int, 0),
{
    shift_walk(t, d, 0)
}

/// The tree walk behind `subst`, carrying the count of binders crossed.
fn subst_walk(t: &Term, s: &Term, c: usize) -> (r: Term)
    requires
        subst_fits(t@, s@, c as nat),
    ensures
        r@ == ssubst(t@, s@, c as nat),
    decreases *t,
{
    match t {
        Term::Var(n) => {
            if *n == c {
                shift_walk(s, c as isize, 0)
            } else {
                Term::Var(*n)
            }
        }
        Term::Abs(b) => {
            if c == usize::MAX {
                // A cutoff past every representable index: nothing matches it.
                let copy = (&**b).clone();
                proof {
                    lemma_model_vars_bounded(copy);
                    lemma_subst_above_all(copy@, s@, (c + 1) as nat);
                }
                Term::Abs(Box::new(copy))
            } else {
                Term::Abs(Box::new(subst_walk(&**b, s, c + 1)))
            }
        }
        Term::App(a, b) => Term::App(
            Box::new(subst_walk(&**a, s, c)),
            Box::new(subst_walk(&**b, s, c)),
        ),
    }
}

/// Replaces every variable bound to the outermost binder by `s`, shifted to
/// keep the replacement's free variables correct at each splice depth.
pub fn subst(t: &Term, s: &Term) -> (r: Term)
    requires
        subst_fits(t@, s@, 0),
    ensures
        r@ == ssubst(t@, s@, 0),
{
    subst_walk(t, s, 0)
}

/// The composite substitution used by beta reduction.
pub fn subst_top(t: &Term, s: &Term) -> (r: Term)
    requires
        subst_top_fits(t@, s@),
    ensures
        r@ == ssubst_top(t@, s@),
{
    let s1 = shift(s, 1);
    let t1 = subst(t, &s1);
    shift(&t1, -1)
}

/// One small step, operand first: drive the operand to a root value, then
/// the operator, then fire the redex. `None` when no rule applies anywhere
/// along that path: the term is stuck, whether a finished value or an
/// application of a non-function.
pub open spec fn sstep(t: STerm) -> Option<STerm>
    decreases t,
{
    match t {
        STerm::App(e1, e2) => if !is_nf(*e2) {
            match sstep(*e2) {
                Some(x) => Some(STerm::App(e1, Box::new(x))),
                None => None,
            }
        } else if !is_nf(*e1) {
            match sstep(*e1) {
                Some(x) => Some(STerm::App(Box::new(x), e2)),
                None => None,
            }
        } else {
            match *e1 {
                STerm::Abs(b) => Some(ssubst_top(*b, *e2)),
                _ => None,
            }
        },
        _ => None,
    }
}

/// The index arithmetic of the one step `sstep` takes on `t` stays within
/// machine bounds.
pub open spec fn step_fits(t: STerm) -> bool
    decreases t,
{
    match t {
        STerm::App(e1, e2) => if !is_nf(*e2) {
            step_fits(*e2)
        } else if !is_nf(*e1) {
            step_fits(*e1)
        } else {
            match *e1 {
                STerm::Abs(b) => subst_top_fits(*b, *e2),
                _ => true,
            }
        },
        _ => true,
    }
}

/// `n` small steps from `t`; a stuck term stays put.
pub open spec fn srun(t: STerm, n: nat) -> STerm
    decreases n,
{
    if n == 0 {
        t
    } else {
        match sstep(t) {
            Some(t2) => srun(t2, (n - 1) as nat),
            None => t,
        }
    }
}

/// Every term the reduction sequence from `t` reaches can take its step
/// within machine bounds.
pub open spec fn run_safe(t: STerm) -> bool {
    forall|n: nat| #[trigger] step_fits(srun(t, n))
}

/// The reduction sequence from `t` reaches a stuck term.
pub open spec fn halts(t: STerm) -> bool {
    exists|n: nat| sstep(#[trigger] srun(t, n)) is None
}

/// A stuck term stays put for any number of steps.
pub proof fn lemma_srun_stuck(t: STerm, n: nat)
    requires
        sstep(t) is None,
    ensures
        srun(t, n) == t,
    decreases n,
{
    if n > 0 {
        lemma_srun_stuck(t, (n - 1) as nat);
    }
}

/// Unfolding a run from its far end: one more step after `n` steps.
pub proof fn lemma_srun_snoc(t: STerm, n: nat)
    ensures
        srun(t, n + 1) == (match sstep(srun(t, n)) {
            Some(x) => x,
            None => srun(t, n),
        }),
    decreases n,
{
    reveal_with_fuel(srun, 3);
    if n > 0 {
        match sstep(t) {
            Some(x) => lemma_srun_snoc(x, (n - 1) as nat),
            None => {
                lemma_srun_stuck(t, n + 1);
                lemma_srun_stuck(t, n);
            }
        }
    }
}

/// Runs compose: `m + n` steps are `m` steps followed by `n` more.
pub proof fn lemma_srun_add(t: STerm, m: nat, n: nat)
    ensures
        srun(t, m + n) == srun(srun(t, m), n),
    decreases m,
{
    if m > 0 {
        match sstep(t) {
            Some(x) => lemma_srun_add(x, (m - 1) as nat, n),
            None => {
                lemma_srun_stuck(t, m + n);
                lemma_srun_stuck(t, m);
                lemma_srun_stuck(t, n);
            }
        }
    }
}

/// Reduction is deterministic: whichever step counts first reach a stuck
/// term, they reach the same one. This is what lets one evaluator serve as
/// an oracle for the other: "the result" of a terminating reduction is
/// well defined.
pub proof fn lemma_result_unique(t: STerm, m: nat, n: nat)
    requires
        sstep(srun(t, m)) is None,
        sstep(srun(t, n)) is None,
    ensures
        srun(t, m) == srun(t, n),
{
    if m <= n {
        lemma_srun_add(t, m, (n - m) as nat);
        lemma_srun_stuck(srun(t, m), (n - m) as nat);
    } else {
        lemma_srun_add(t, n, (m - n) as nat);
        lemma_srun_stuck(srun(t, n), (m - n) as nat);
    }
}

/// Shifting by zero moves nothing.
proof fn lemma_shift_zero(t: STerm, c: nat)
    ensures
        sshift(t, 0, c) == t,
    decreases t,
{
    match t {
        STerm::Var(_) => {}
        STerm::Abs(b) => lemma_shift_zero(*b, c + 1),
        STerm::App(a, b) => {
            lemma_shift_zero(*a, c);
            lemma_shift_zero(*b, c);
        }
    }
}

/// Shifting up by one and back down restores the term.
proof fn lemma_shift_up_down(t: STerm, c: nat)
    ensures
        sshift(sshift(t, 1, c), -1, c) == t,
    decreases t,
{
    match t {
        STerm::Var(_) => {}
        STerm::Abs(b) => lemma_shift_up_down(*b, c + 1),
        STerm::App(a, b) => {
            lemma_shift_up_down(*a, c);
            lemma_shift_up_down(*b, c);
        }
    }
}

/// Applying the identity to any root value reduces, in one step, to that
/// value unchanged: the beta-redex substitution is exact.
pub proof fn lemma_identity_application(v: STerm)
    requires
        is_nf(v),
    ensures
        sstep(STerm::App(Box::new(identity_model()), Box::new(v))) == Some(v),
        srun(STerm::App(Box::new(identity_model()), Box::new(v)), 1) == v,
        sstep(v) is None,
{
    let t = STerm::App(Box::new(identity_model()), Box::new(v));
    lemma_shift_zero(sshift(v, 1, 0), 0);
    lemma_shift_up_down(v, 0);
    assert(ssubst(STerm::Var(0), sshift(v, 1, 0), 0) == sshift(v, 1, 0));
    assert(sstep(t) == Some(v));
    reveal_with_fuel(srun, 3);
}

/// A term already in weak normal form (a bare variable or abstraction at
/// the root) takes no step and evaluates to itself.
pub proof fn lemma_value_evaluates_to_itself(t: STerm, n: nat)
    requires
        is_nf(t),
    ensures
        sstep(t) is None,
        srun(t, n) == t,
{
    lemma_srun_stuck(t, n);
}

/// One reduction step. `Ok` carries the reduced term; `Err` returns the
/// input unchanged when no rule applies, so the driver can stop there.
pub fn eval1(tm: Term) -> (r: Result<Term, Term>)
    requires
        step_fits(tm@),
    ensures
        sstep(tm@) matches Some(t2) ==> r matches Ok(v) && v@ == t2,
        sstep(tm@) is None ==> (r matches Err(v) && v == tm),
    decreases tm,
{
    match tm {
        Term::App(e1, e2) => {
            if !(&*e2).nf() {
                match eval1(*e2) {
                    Ok(x) => Ok(Term::App(e1, Box::new(x))),
                    Err(x) => Err(Term::App(e1, Box::new(x))),
                }
            } else if !(&*e1).nf() {
                match eval1(*e1) {
                    Ok(x) => Ok(Term::App(Box::new(x), e2)),
                    Err(x) => Err(Term::App(Box::new(x), e2)),
                }
            } else {
                match *e1 {
                    Term::Abs(b) => Ok(subst_top(&*b, &*e2)),
                    v => Err(Term::App(Box::new(v), e2)),
                }
            }
        }
        _ => Err(tm),
    }
}

/// The two distinct ways a reduction sequence can end: at a genuine weak
/// normal form (a variable or abstraction at the root), or wedged on an
/// application of a non-function with nothing left to reduce. The two are
/// different outcomes, not one "no further step" signal.
#[derive(Debug, PartialEq, Eq)]
pub enum EvalOutcome {
    Value(Term),
    Stuck(Term),
}

/// Repeats `eval1` to a fixed point and returns the stuck term: either a
/// weak normal form or an application of a non-function, unchanged.
///
/// The caller is responsible for handing a terminating term whose
/// reduction stays within machine index bounds; divergence is a property
/// of the input, not of this driver.
pub fn eval(tm: Term) -> (r: Term)
    requires
        run_safe(tm@),
        halts(tm@),
    ensures
        sstep(r@) is None,
        exists|n: nat| #[trigger] srun(tm@, n) == r@,
        is_nf(tm@) ==> r == tm,
{
    let ghost t0 = tm@;
    let ghost n0 = choose|n: nat| sstep(#[trigger] srun(t0, n)) is None;
    let ghost mut k: nat = 0;
    let mut t = tm;
    loop
        invariant_except_break
            t@ == srun(t0, k),
            k <= n0,
            run_safe(t0),
            sstep(srun(t0, n0)) is None,
            is_nf(t0) ==> k == 0 && t == tm,
        ensures
            sstep(t@) is None,
            exists|n: nat| #[trigger] srun(t0, n) == t@,
            is_nf(t0) ==> t == tm,
        decreases n0 - k,
    {
        proof {
            assert(step_fits(srun(t0, k)));
        }
        match eval1(t) {
            Ok(t2) => {
                proof {
                    lemma_srun_snoc(t0, k);
                    k = k + 1;
                }
                t = t2;
            }
            Err(t2) => {
                proof {
                    assert(srun(t0, k) == t2@);
                }
                t = t2;
                break;
            }
        }
    }
    t
}

/// Runs the reduction to its fixed point and tags the result: `Value` for
/// a weak normal form, `Stuck` for an irreducible application of a
/// non-function.
pub fn eval_outcome(tm: Term) -> (r: EvalOutcome)
    requires
        run_safe(tm@),
        halts(tm@),
    ensures
        r matches EvalOutcome::Value(t) ==> sstep(t@) is None && is_nf(t@) && exists|n: nat|
            #[trigger] srun(tm@, n) == t@,
        r matches EvalOutcome::Stuck(t) ==> sstep(t@) is None && !is_nf(t@) && exists|n: nat|
            #[trigger] srun(tm@, n) == t@,
{
    let t = eval(tm);
    if t.nf() {
        EvalOutcome::Value(t)
    } else {
        EvalOutcome::Stuck(t)
    }
}

} // verus!
