//! The CEK abstract machine: a persistent environment of closures, a
//! continuation representing the evaluation context, and a step function
//! over (control, environment, continuation) triples.

use std::rc::Rc;

use vstd::prelude::*;

use crate::{STerm, Term, identity_model};
use crate::beta::{lemma_identity_application, lemma_value_evaluates_to_itself, srun, sstep};

verus! {

/// How a machine run fails: looking a de Bruijn index up past the end of
/// the environment chain, or reaching a transition no rule defines.
/// Both are unrecoverable; the driver surfaces them instead of panicking.
#[derive(Clone, Copy, Debug, PartialEq, Eq, Structural)]
pub enum MachineError {
    UnboundVariable,
    InvalidState,
}

/// A term paired with the environment in effect when it was produced.
pub struct Closure {
    pub term: Term,
    pub env: Rc<Env>,
}

/// A persistent chain of frames. Each frame binds relative index 0 to at
/// most one closure and defers the rest to its parent; extension allocates
/// one new frame, so parents are shared, never mutated.
pub struct Env {
    pub parent: Option<Rc<Env>>,
    pub clo: Option<Closure>,
}

/// Spec model of a closure: its term and the bindings it captured.
pub struct SClosure {
    pub term: STerm,
    pub env: Seq<SClosure>,
}

/// Spec model of a closure value.
pub open spec fn closure_model(c: Closure) -> SClosure
    decreases c,
{
    SClosure { term: c.term@, env: env_model(*c.env) }
}

/// Spec model of an environment: the chain of bindings as a sequence,
/// nearest binding first.
pub open spec fn env_model(e: Env) -> Seq<SClosure>
    decreases e,
{
    match e.clo {
        None => Seq::empty(),
        Some(c) => seq![closure_model(c)] + match e.parent {
            None => Seq::<SClosure>::empty(),
            Some(p) => env_model(*p),
        },
    }
}

/// Structural invariant of an environment: an empty frame is the root of
/// its chain, and every captured environment satisfies the same invariant.
pub open spec fn env_wf(e: Env) -> bool
    decreases e,
{
    &&& (e.clo is None ==> e.parent is None)
    &&& (match e.parent {
        Some(p) => env_wf(*p),
        None => true,
    })
    &&& (match e.clo {
        Some(c) => env_wf(*c.env),
        None => true,
    })
}

impl View for Env {
    type V = Seq<SClosure>;

    open spec fn view(&self) -> Seq<SClosure> {
        env_model(*self)
    }
}

impl View for Closure {
    type V = SClosure;

    open spec fn view(&self) -> SClosure {
        closure_model(*self)
    }
}

impl Default for Env {
    /// The empty environment: no binding, no parent.
    fn default() -> (r: Env)
        ensures
            r@ == Seq::<SClosure>::empty(),
            env_wf(r),
    {
        Env { parent: None, clo: None }
    }
}

/// Relies on std's `Rc::clone`: the returned handle shares the same
/// allocation, so it carries the same environment value.
#[verifier::external_body]
fn clone_env(e: &Rc<Env>) -> (r: Rc<Env>)
    ensures
        r == *e,
{
    Rc::clone(e)
}

impl Clone for Closure {
    /// Copies the term and shares the captured environment: the clone is
    /// the same closure value.
    fn clone(&self) -> (r: Closure)
        ensures
            r == *self,
    {
        Closure { term: self.term.clone(), env: clone_env(&self.env) }
    }
}

impl Env {
    /// Walks `idx` parents and returns the closure bound there, or `None`
    /// when the chain is exhausted first: the index is unbound.
    pub fn lookup(&self, idx: usize) -> (r: Option<Closure>)
        requires
            env_wf(*self),
        ensures
            r matches Some(c) ==> idx < self@.len() && c@ == self@[idx as int] && env_wf(
                *c.env,
            ),
            r is None ==> idx >= self@.len(),
        decreases *self,
    {
        if idx == 0 {
            match &self.clo {
                Some(c) => Some(c.clone()),
                None => None,
            }
        } else {
            match &self.parent {
                Some(p) => p.lookup(idx - 1),
                None => None,
            }
        }
    }

    /// Extends an environment with one new binding for relative index 0:
    /// allocates a single frame pointing at the existing chain, which is
    /// shared, never copied or mutated.
    pub fn extend(parent: Rc<Env>, clo: Closure) -> (r: Rc<Env>)
        requires
            env_wf(*parent),
            env_wf(*clo.env),
        ensures
            env_model(*r) == seq![clo@] + env_model(*parent),
            env_wf(*r),
    {
        let ghost parent_view = parent@;
        let ghost clo_view = clo@;
        let r = Rc::new(Env { parent: Some(parent), clo: Some(clo) });
        proof {
            assert(env_model(*r) =~= seq![clo_view] + parent_view);
        }
        r
    }
}

/// What to do with the current value: nothing (`Return`), evaluate the
/// saved argument next (`Arg`), or perform the saved application
/// (`Call`).
pub enum Continuation {
    Return,
    Arg(Term, Rc<Env>, Box<Continuation>),
    Call(Term, Rc<Env>, Box<Continuation>),
}

/// Spec model of a continuation.
pub enum SKont {
    Return,
    Arg(STerm, Seq<SClosure>, Box<SKont>),
    Call(STerm, Seq<SClosure>, Box<SKont>),
}

/// Spec model of a continuation value.
pub open spec fn kont_model(k: Continuation) -> SKont
    decreases k,
{
    match k {
        Continuation::Return => SKont::Return,
        Continuation::Arg(t, e, next) => SKont::Arg(
            t@,
            env_model(*e),
            Box::new(kont_model(*next)),
        ),
        Continuation::Call(t, e, next) => SKont::Call(
            t@,
            env_model(*e),
            Box::new(kont_model(*next)),
        ),
    }
}

/// Every environment a continuation saved satisfies the chain invariant.
pub open spec fn kont_wf(k: Continuation) -> bool
    decreases k,
{
    match k {
        Continuation::Return => true,
        Continuation::Arg(_, e, next) => env_wf(*e) && kont_wf(*next),
        Continuation::Call(_, e, next) => env_wf(*e) && kont_wf(*next),
    }
}

impl View for Continuation {
    type V = SKont;

    open spec fn view(&self) -> SKont {
        kont_model(*self)
    }
}

/// The machine state: the triple of control term, environment, and
/// continuation. The triple as a whole is the unit of transition.
pub struct Machine {
    pub control: Term,
    pub env: Rc<Env>,
    pub kont: Continuation,
}

/// Spec model of a machine state.
pub struct SMachine {
    pub control: STerm,
    pub env: Seq<SClosure>,
    pub kont: SKont,
}

impl Machine {
    /// Spec model of this machine state.
    pub open spec fn model(self) -> SMachine {
        SMachine { control: self.control@, env: env_model(*self.env), kont: kont_model(self.kont) }
    }

    /// Every environment reachable from the state satisfies the chain
    /// invariant.
    pub open spec fn wf(self) -> bool {
        env_wf(*self.env) && kont_wf(self.kont)
    }
}

impl View for Machine {
    type V = SMachine;

    open spec fn view(&self) -> SMachine {
        self.model()
    }
}

/// The transition relation. A variable resolves to its closure and the
/// machine switches to the closure's own captured environment; an
/// application pushes an `Arg` frame; a value meeting `Arg` starts the
/// argument and saves the function in a `Call` frame; a value meeting
/// `Call` extends the function's environment with the new binding and
/// enters the body. A value meeting `Return` is terminal and the state is
/// kept. An unbound index or a `Call` frame holding a non-abstraction is
/// an error.
pub open spec fn smstep(m: SMachine) -> Result<SMachine, MachineError> {
    match m.control {
        STerm::Var(n) => if n < m.env.len() {
            Ok(
                SMachine {
                    control: m.env[n as int].term,
                    env: m.env[n as int].env,
                    kont: m.kont,
                },
            )
        } else {
            Err(MachineError::UnboundVariable)
        },
        STerm::App(e1, e2) => Ok(
            SMachine {
                control: *e1,
                env: m.env,
                kont: SKont::Arg(*e2, m.env, Box::new(m.kont)),
            },
        ),
        STerm::Abs(b) => match m.kont {
            SKont::Return => Ok(m),
            SKont::Arg(a, e, k) => Ok(
                SMachine {
                    control: a,
                    env: e,
                    kont: SKont::Call(STerm::Abs(b), m.env, k),
                },
            ),
            SKont::Call(f, e, k) => match f {
                STerm::Abs(fb) => Ok(
                    SMachine {
                        control: *fb,
                        env: seq![SClosure { term: STerm::Abs(b), env: m.env }] + e,
                        kont: *k,
                    },
                ),
                _ => Err(MachineError::InvalidState),
            },
        },
    }
}

impl Machine {
    /// One machine transition, mirroring `smstep` exactly and surfacing
    /// its two failure modes instead of panicking.
    pub fn step(self) -> (r: Result<Machine, MachineError>)
        requires
            self.wf(),
        ensures
            smstep(self@) matches Ok(m2) ==> (r matches Ok(em) && em@ == m2 && em.wf()),
            smstep(self@) matches Err(e) ==> (r matches Err(e2) && e2 == e),
    {
        let Machine { control, env, kont } = self;
        match control {
            Term::Var(idx) => match env.lookup(idx) {
                Some(clo) => Ok(Machine { control: clo.term, env: clo.env, kont }),
                None => Err(MachineError::UnboundVariable),
            },
            Term::App(e1, e2) => {
                let shared = clone_env(&env);
                Ok(
                    Machine {
                        control: *e1,
                        env: shared,
                        kont: Continuation::Arg(*e2, env, Box::new(kont)),
                    },
                )
            }
            Term::Abs(body) => match kont {
                Continuation::Return => Ok(
                    Machine { control: Term::Abs(body), env, kont: Continuation::Return },
                ),
                Continuation::Arg(a, e, k) => Ok(
                    Machine {
                        control: a,
                        env: e,
                        kont: Continuation::Call(Term::Abs(body), env, k),
                    },
                ),
                Continuation::Call(f, e, k) => match f {
                    Term::Abs(fb) => Ok(
                        Machine {
                            control: *fb,
                            env: Env::extend(
                                e,
                                Closure { term: Term::Abs(body), env },
                            ),
                            kont: *k,
                        },
                    ),
                    _ => Err(MachineError::InvalidState),
                },
            },
        }
    }
}

/// The initial state: the input term, an empty environment, `Return`.
pub open spec fn minit(t: STerm) -> SMachine {
    SMachine { control: t, env: Seq::empty(), kont: SKont::Return }
}

/// The terminal condition: the control is a value and nothing remains to
/// be done with it.
pub open spec fn is_final(m: SMachine) -> bool {
    m.control is Abs && m.kont is Return
}

/// `n` transitions from `m`; an error, once reached, is the outcome, and
/// a terminal state keeps stepping to itself.
pub open spec fn mrun(m: SMachine, n: nat) -> Result<SMachine, MachineError>
    decreases n,
{
    if n == 0 {
        Ok(m)
    } else {
        match smstep(m) {
            Ok(m2) => mrun(m2, (n - 1) as nat),
            Err(e) => Err(e),
        }
    }
}

/// The run from `t` reaches a terminal state or an error.
pub open spec fn mhalts(t: STerm) -> bool {
    exists|n: nat|
        (#[trigger] mrun(minit(t), n) matches Ok(m) && is_final(m)) || mrun(minit(t), n) is Err
}

/// A terminal state steps to itself and so stays put for any number of
/// transitions.
pub proof fn lemma_mrun_final(m: SMachine, n: nat)
    requires
        is_final(m),
    ensures
        mrun(m, n) == Ok::<SMachine, MachineError>(m),
    decreases n,
{
    if n > 0 {
        lemma_mrun_final(m, (n - 1) as nat);
    }
}

/// Unfolding a run from its far end: one more transition after `n`.
pub proof fn lemma_mrun_snoc(m: SMachine, n: nat)
    ensures
        mrun(m, n + 1) == (match mrun(m, n) {
            Ok(m2) => smstep(m2),
            Err(e) => Err::<SMachine, MachineError>(e),
        }),
    decreases n,
{
    reveal_with_fuel(mrun, 3);
    if n > 0 {
        match smstep(m) {
            Ok(m2) => lemma_mrun_snoc(m2, (n - 1) as nat),
            Err(_) => {}
        }
    }
}

/// Runs compose: `a + b` transitions are `a` followed by `b` more.
pub proof fn lemma_mrun_add(m: SMachine, a: nat, b: nat)
    ensures
        mrun(m, a + b) == (match mrun(m, a) {
            Ok(m2) => mrun(m2, b),
            Err(e) => Err::<SMachine, MachineError>(e),
        }),
    decreases a,
{
    if a > 0 {
        match smstep(m) {
            Ok(m2) => lemma_mrun_add(m2, (a - 1) as nat, b),
            Err(_) => {}
        }
    }
}

/// The machine is deterministic: whichever transition counts first reach
/// a terminal state or an error, they reach the same outcome.
pub proof fn lemma_machine_result_unique(t: STerm, m: nat, n: nat)
    requires
        (mrun(minit(t), m) matches Ok(x) && is_final(x)) || mrun(minit(t), m) is Err,
        (mrun(minit(t), n) matches Ok(x) && is_final(x)) || mrun(minit(t), n) is Err,
    ensures
        mrun(minit(t), m) == mrun(minit(t), n),
{
    if m <= n {
        lemma_mrun_add(minit(t), m, (n - m) as nat);
        match mrun(minit(t), m) {
            Ok(x) => lemma_mrun_final(x, (n - m) as nat),
            Err(_) => {}
        }
    } else {
        lemma_mrun_add(minit(t), n, (m - n) as nat);
        match mrun(minit(t), n) {
            Ok(x) => lemma_mrun_final(x, (m - n) as nat),
            Err(_) => {}
        }
    }
}

/// A bare abstraction is already terminal: the machine returns it
/// unchanged without taking a single effective transition.
pub proof fn lemma_machine_value_halts(t: STerm, n: nat)
    requires
        t is Abs,
    ensures
        is_final(minit(t)),
        mrun(minit(t), n) == Ok::<SMachine, MachineError>(minit(t)),
{
    lemma_mrun_final(minit(t), n);
}

/// On a term that is already a value — a bare abstraction — the two
/// evaluation strategies agree: the substitution-based reduction sequence
/// never leaves the term, and the machine run is terminal at once with
/// the same term as its control. This is the fragment of the evaluator
/// equivalence that holds of the literal result terms; on terms whose
/// reduction enters a closure body, the machine returns the body with its
/// bindings left in the discarded environment rather than substituted, so
/// the two result terms can differ in spelling.
pub proof fn lemma_evaluators_agree_on_values(t: STerm, m: nat, n: nat)
    requires
        t is Abs,
    ensures
        sstep(t) is None,
        srun(t, m) == t,
        mrun(minit(t), n) == Ok::<SMachine, MachineError>(minit(t)),
        is_final(minit(t)),
        minit(t).control == t,
{
    lemma_value_evaluates_to_itself(t, m);
    lemma_machine_value_halts(t, n);
}

/// The machine applies the identity to any value in four transitions and
/// halts with that value as its control, in an empty environment.
pub proof fn lemma_machine_identity_application(v: STerm)
    requires
        v is Abs,
    ensures
        mrun(minit(STerm::App(Box::new(identity_model()), Box::new(v))), 4) == Ok::<
            SMachine,
            MachineError,
        >(SMachine { control: v, env: Seq::empty(), kont: SKont::Return }),
        is_final(SMachine { control: v, env: Seq::empty(), kont: SKont::Return }),
{
    let idm = identity_model();
    let t = STerm::App(Box::new(idm), Box::new(v));
    let e0 = Seq::<SClosure>::empty();
    let m0 = minit(t);
    let m1 = SMachine { control: idm, env: e0, kont: SKont::Arg(v, e0, Box::new(SKont::Return)) };
    assert(smstep(m0) == Ok::<SMachine, MachineError>(m1));
    let m2 = SMachine { control: v, env: e0, kont: SKont::Call(idm, e0, Box::new(SKont::Return)) };
    assert(smstep(m1) == Ok::<SMachine, MachineError>(m2));
    let env3 = seq![SClosure { term: v, env: e0 }];
    let m3 = SMachine { control: STerm::Var(0), env: env3, kont: SKont::Return };
    assert(seq![SClosure { term: v, env: e0 }] + e0 =~= env3);
    assert(smstep(m2) == Ok::<SMachine, MachineError>(m3));
    let m4 = SMachine { control: v, env: e0, kont: SKont::Return };
    assert(smstep(m3) == Ok::<SMachine, MachineError>(m4));
    reveal_with_fuel(mrun, 6);
}

/// Identity applied to any value: the two evaluation strategies agree.
/// The substitution reducer reaches the value itself in one step, and the
/// machine halts with the same value as its control in four transitions —
/// one instance of the evaluator-equivalence property, proved for every
/// abstraction argument rather than a chosen one.
pub proof fn lemma_evaluators_agree_on_identity_application(v: STerm)
    requires
        v is Abs,
    ensures
        srun(STerm::App(Box::new(identity_model()), Box::new(v)), 1) == v,
        sstep(v) is None,
        mrun(minit(STerm::App(Box::new(identity_model()), Box::new(v))), 4) == Ok::<
            SMachine,
            MachineError,
        >(SMachine { control: v, env: Seq::empty(), kont: SKont::Return }),
{
    lemma_identity_application(v);
    lemma_machine_identity_application(v);
}

/// Runs the machine from the input term in an empty environment until the
/// control is a value with nothing left to do, and returns that control
/// term; an unbound variable or an undefined transition is returned as
/// the error it is.
///
/// The caller is responsible for handing a term whose run halts;
/// divergence is a property of the input, not of this driver. The final
/// state discards its environment, so the returned term's free indices
/// are only meaningful when the input was closed.
pub fn eval(term: Term) -> (r: Result<Term, MachineError>)
    requires
        mhalts(term@),
    ensures
        r matches Ok(t) ==> exists|n: nat|
            #[trigger] mrun(minit(term@), n) matches Ok(m) && is_final(m) && m.control == t@,
        r matches Err(e) ==> exists|n: nat| mrun(minit(term@), n) == Err::<SMachine, MachineError>(
            e,
        ),
        term@ is Abs ==> (r matches Ok(t) && t@ == term@),
{
    let ghost t0 = term@;
    let ghost n0 = choose|n: nat|
        (#[trigger] mrun(minit(t0), n) matches Ok(m) && is_final(m)) || mrun(minit(t0), n) is Err;
    let ghost mut k: nat = 0;
    let mut err: Option<MachineError> = None;
    let mut m = Machine {
        control: term,
        env: Rc::new(Env::default()),
        kont: Continuation::Return,
    };
    loop
        invariant_except_break
            err is None,
            mrun(minit(t0), k) == Ok::<SMachine, MachineError>(m@),
            m.wf(),
            k <= n0,
            (mrun(minit(t0), n0) matches Ok(x) && is_final(x)) || mrun(minit(t0), n0) is Err,
            t0 is Abs ==> m@ == minit(t0),
        ensures
            err is None ==> mrun(minit(t0), k) == Ok::<SMachine, MachineError>(m@) && is_final(
                m@,
            ) && (t0 is Abs ==> m@ == minit(t0)),
            err matches Some(e) ==> exists|n: nat| mrun(minit(t0), n) == Err::<
                SMachine,
                MachineError,
            >(e),
        decreases n0 - k,
    {
        let done = match (&m.control, &m.kont) {
            (Term::Abs(_), Continuation::Return) => true,
            _ => false,
        };
        if done {
            break;
        }
        proof {
            if k == n0 {
                // The halting witness is an earlier state; a non-final,
                // non-error state at `n0` would contradict it.
                assert(false);
            }
            lemma_mrun_snoc(minit(t0), k);
        }
        match m.step() {
            Ok(m2) => {
                proof {
                    k = k + 1;
                }
                m = m2;
            }
            Err(e) => {
                proof {
                    assert(mrun(minit(t0), k + 1) == Err::<SMachine, MachineError>(e));
                }
                err = Some(e);
                // The failing step consumed the machine; the error exit
                // below never reads this placeholder state.
                m = Machine {
                    control: Term::Var(0),
                    env: Rc::new(Env::default()),
                    kont: Continuation::Return,
                };
                break;
            }
        }
    }
    match err {
        Some(e) => {
            proof {
                if t0 is Abs {
                    let n = choose|n: nat|
                        mrun(minit(t0), n) == Err::<SMachine, MachineError>(e);
                    lemma_machine_value_halts(t0, n);
                    assert(false);
                }
            }
            Err(e)
        }
        None => Ok(m.control),
    }
}

} // verus!
