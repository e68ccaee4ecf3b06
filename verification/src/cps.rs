//! A continuation-passing-style transform over a named-variable term
//! representation, separate from the de Bruijn `Term` the evaluators use.

use vstd::prelude::*;

verus! {

/// A source term with named variables, the input of the transform.
#[derive(Debug, PartialEq, Eq)]
pub enum CpsTerm {
    Var(String),
    Abs(String, Box<CpsTerm>),
    App(Box<CpsTerm>, Box<CpsTerm>),
}

/// A continuation-explicit term: source variables and abstractions keep
/// their names; continuation variables and abstractions carry the counter
/// index that minted them.
#[derive(Debug, PartialEq, Eq)]
pub enum CTerm {
    Return,
    Var(String),
    Abs(String, Box<CTerm>),
    App(Box<CTerm>, Box<CTerm>),
    KVar(usize),
    KAbs(usize, Box<CTerm>),
    KApp(Box<CTerm>, Box<CTerm>),
}

/// Spec model of a named-variable source term.
pub enum SCpsTerm {
    Var(Seq<char>),
    Abs(Seq<char>, Box<SCpsTerm>),
    App(Box<SCpsTerm>, Box<SCpsTerm>),
}

/// Spec model of a continuation-explicit term, with unbounded counters.
pub enum SCTerm {
    Return,
    Var(Seq<char>),
    Abs(Seq<char>, Box<SCTerm>),
    App(Box<SCTerm>, Box<SCTerm>),
    KVar(nat),
    KAbs(nat, Box<SCTerm>),
    KApp(Box<SCTerm>, Box<SCTerm>),
}

impl CpsTerm {
    /// The source term this value represents.
    pub open spec fn model(self) -> SCpsTerm
        decreases self,
    {
        match self {
            CpsTerm::Var(x) => SCpsTerm::Var(x@),
            CpsTerm::Abs(x, b) => SCpsTerm::Abs(x@, Box::new(b.model())),
            CpsTerm::App(a, b) => SCpsTerm::App(Box::new(a.model()), Box::new(b.model())),
        }
    }
}

impl View for CpsTerm {
    type V = SCpsTerm;

    open spec fn view(&self) -> SCpsTerm {
        self.model()
    }
}

impl Clone for CpsTerm {
    /// A deep copy: the clone is the same source term.
    fn clone(&self) -> (r: CpsTerm)
        ensures
            r == *self,
        decreases *self,
    {
        match self {
            CpsTerm::Var(x) => CpsTerm::Var(x.clone()),
            CpsTerm::Abs(x, b) => CpsTerm::Abs(x.clone(), Box::new((&**b).clone())),
            CpsTerm::App(a, b) => CpsTerm::App(
                Box::new((&**a).clone()),
                Box::new((&**b).clone()),
            ),
        }
    }
}

impl CTerm {
    /// The continuation-explicit term this value represents.
    pub open spec fn model(self) -> SCTerm
        decreases self,
    {
        match self {
            CTerm::Return => SCTerm::Return,
            CTerm::Var(x) => SCTerm::Var(x@),
            CTerm::Abs(x, b) => SCTerm::Abs(x@, Box::new(b.model())),
            CTerm::App(a, b) => SCTerm::App(Box::new(a.model()), Box::new(b.model())),
            CTerm::KVar(n) => SCTerm::KVar(n as nat),
            CTerm::KAbs(n, b) => SCTerm::KAbs(n as nat, Box::new(b.model())),
            CTerm::KApp(a, b) => SCTerm::KApp(Box::new(a.model()), Box::new(b.model())),
        }
    }
}

impl View for CTerm {
    type V = SCTerm;

    open spec fn view(&self) -> SCTerm {
        self.model()
    }
}

/// How many continuation variables the transform mints for this term.
pub open spec fn fresh_needed(t: SCpsTerm) -> nat
    decreases t,
{
    match t {
        SCpsTerm::Var(_) => 0,
        SCpsTerm::Abs(_, b) => 1 + fresh_needed(*b),
        SCpsTerm::App(a, b) => 2 + fresh_needed(*b) + fresh_needed(*a),
    }
}

/// The transform itself, over models: given the term, the continuation to
/// hand the result to, and the next fresh counter value, it yields the
/// continuation-explicit term and the counter left behind.
pub open spec fn scps_transform(t: SCpsTerm, k: SCTerm, fresh: nat) -> (SCTerm, nat)
    decreases t,
{
    match t {
        SCpsTerm::Var(x) => (SCTerm::KApp(Box::new(k), Box::new(SCTerm::Var(x))), fresh),
        SCpsTerm::Abs(x, body) => {
            let r = scps_transform(*body, SCTerm::KVar(fresh), fresh + 1);
            (
                SCTerm::KApp(
                    Box::new(k),
                    Box::new(
                        SCTerm::KAbs(fresh, Box::new(SCTerm::Abs(x, Box::new(r.0)))),
                    ),
                ),
                r.1,
            )
        }
        SCpsTerm::App(e1, e2) => {
            let r2 = scps_transform(
                *e2,
                SCTerm::KAbs(
                    fresh,
                    Box::new(
                        SCTerm::KApp(
                            Box::new(
                                SCTerm::KApp(
                                    Box::new(SCTerm::KVar(fresh)),
                                    Box::new(SCTerm::KVar(fresh + 1)),
                                ),
                            ),
                            Box::new(k),
                        ),
                    ),
                ),
                fresh + 2,
            );
            scps_transform(*e1, SCTerm::KAbs(fresh + 1, Box::new(r2.0)), r2.1)
        }
    }
}

/// The top-level variant: identical except that its abstraction case
/// mints one extra, unused continuation variable before recursing.
pub open spec fn scps(t: SCpsTerm, k: SCTerm, fresh: nat) -> (SCTerm, nat) {
    match t {
        SCpsTerm::Var(x) => (SCTerm::KApp(Box::new(k), Box::new(SCTerm::Var(x))), fresh),
        SCpsTerm::Abs(x, body) => {
            let r = scps_transform(*body, SCTerm::KVar(fresh), fresh + 2);
            (
                SCTerm::KApp(
                    Box::new(k),
                    Box::new(
                        SCTerm::KAbs(fresh, Box::new(SCTerm::Abs(x, Box::new(r.0)))),
                    ),
                ),
                r.1,
            )
        }
        SCpsTerm::App(e1, e2) => {
            let r2 = scps_transform(
                *e2,
                SCTerm::KAbs(
                    fresh + 1,
                    Box::new(
                        SCTerm::KApp(
                            Box::new(
                                SCTerm::KApp(
                                    Box::new(SCTerm::KVar(fresh)),
                                    Box::new(SCTerm::KVar(fresh + 1)),
                                ),
                            ),
                            Box::new(k),
                        ),
                    ),
                ),
                fresh + 2,
            );
            scps_transform(*e1, SCTerm::KAbs(fresh, Box::new(r2.0)), r2.1)
        }
    }
}

/// The counter the transform leaves behind is the counter it was given
/// plus exactly the variables the term needs.
pub proof fn lemma_cps_fresh(t: SCpsTerm, k: SCTerm, fresh: nat)
    ensures
        scps_transform(t, k, fresh).1 == fresh + fresh_needed(t),
    decreases t,
{
    match t {
        SCpsTerm::Var(_) => {}
        SCpsTerm::Abs(_, body) => {
            lemma_cps_fresh(*body, SCTerm::KVar(fresh), fresh + 1);
        }
        SCpsTerm::App(e1, e2) => {
            let k2 = SCTerm::KAbs(
                fresh,
                Box::new(
                    SCTerm::KApp(
                        Box::new(
                            SCTerm::KApp(
                                Box::new(SCTerm::KVar(fresh)),
                                Box::new(SCTerm::KVar(fresh + 1)),
                            ),
                        ),
                        Box::new(k),
                    ),
                ),
            );
            lemma_cps_fresh(*e2, k2, fresh + 2);
            let r2 = scps_transform(*e2, k2, fresh + 2);
            lemma_cps_fresh(*e1, SCTerm::KAbs(fresh + 1, Box::new(r2.0)), r2.1);
        }
    }
}

/// Mints fresh continuation-variable indices from a counter.
pub struct Transform {
    pub vars: usize,
}

impl Default for Transform {
    /// A transformer whose counter starts at zero.
    fn default() -> (r: Transform)
        ensures
            r.vars == 0,
    {
        Transform { vars: 0 }
    }
}

impl Transform {
    /// Hands out the next fresh index and advances the counter.
    fn freshk(&mut self) -> (r: usize)
        requires
            old(self).vars < usize::MAX,
        ensures
            r == old(self).vars,
            final(self).vars == old(self).vars + 1,
    {
        let v = self.vars;
        self.vars = self.vars + 1;
        v
    }

    /// The continuation-passing transform: hands the value of `term` to
    /// `kont`, minting fresh continuation variables from the counter.
    pub fn cps_transform(&mut self, term: CpsTerm, kont: CTerm) -> (r: CTerm)
        requires
            old(self).vars + fresh_needed(term@) <= usize::MAX,
        ensures
            r@ == scps_transform(term@, kont@, old(self).vars as nat).0,
            final(self).vars as nat == scps_transform(term@, kont@, old(self).vars as nat).1,
        decreases term,
    {
        proof {
            reveal_with_fuel(CTerm::model, 8);
            reveal_with_fuel(CpsTerm::model, 3);
            lemma_cps_fresh(term@, kont@, old(self).vars as nat);
        }
        match term {
            CpsTerm::Var(i) => CTerm::KApp(Box::new(kont), Box::new(CTerm::Var(i))),
            CpsTerm::Abs(s, body) => {
                let k = self.freshk();
                let inner = self.cps_transform(*body, CTerm::KVar(k));
                CTerm::KApp(
                    Box::new(kont),
                    Box::new(CTerm::KAbs(k, Box::new(CTerm::Abs(s, Box::new(inner))))),
                )
            }
            CpsTerm::App(e1, e2) => {
                let k1 = self.freshk();
                let k2 = self.freshk();
                proof {
                    lemma_cps_fresh(
                        e2@,
                        SCTerm::KAbs(
                            k1 as nat,
                            Box::new(
                                SCTerm::KApp(
                                    Box::new(
                                        SCTerm::KApp(
                                            Box::new(SCTerm::KVar(k1 as nat)),
                                            Box::new(SCTerm::KVar(k2 as nat)),
                                        ),
                                    ),
                                    Box::new(kont@),
                                ),
                            ),
                        ),
                        self.vars as nat,
                    );
                }
                let e2_ = self.cps_transform(
                    *e2,
                    CTerm::KAbs(
                        k1,
                        Box::new(
                            CTerm::KApp(
                                Box::new(
                                    CTerm::KApp(
                                        Box::new(CTerm::KVar(k1)),
                                        Box::new(CTerm::KVar(k2)),
                                    ),
                                ),
                                Box::new(kont),
                            ),
                        ),
                    ),
                );
                self.cps_transform(*e1, CTerm::KAbs(k2, Box::new(e2_)))
            }
        }
    }

    /// The top-level entry of the transform; it differs from
    /// `cps_transform` only in minting one extra, unused continuation
    /// variable for an abstraction before recursing into its body.
    pub fn cps(&mut self, term: CpsTerm, kont: CTerm) -> (r: CTerm)
        requires
            old(self).vars as nat + fresh_needed(term@) + 1 <= usize::MAX,
        ensures
            r@ == scps(term@, kont@, old(self).vars as nat).0,
            final(self).vars as nat == scps(term@, kont@, old(self).vars as nat).1,
    {
        proof {
            reveal_with_fuel(CTerm::model, 8);
            reveal_with_fuel(CpsTerm::model, 3);
        }
        match term {
            CpsTerm::Var(i) => CTerm::KApp(Box::new(kont), Box::new(CTerm::Var(i))),
            CpsTerm::Abs(s, body) => {
                let k = self.freshk();
                let _z = self.freshk();
                let inner = self.cps_transform(*body, CTerm::KVar(k));
                CTerm::KApp(
                    Box::new(kont),
                    Box::new(CTerm::KAbs(k, Box::new(CTerm::Abs(s, Box::new(inner))))),
                )
            }
            CpsTerm::App(e1, e2) => {
                let z1 = self.freshk();
                let z2 = self.freshk();
                proof {
                    lemma_cps_fresh(
                        e2@,
                        SCTerm::KAbs(
                            z2 as nat,
                            Box::new(
                                SCTerm::KApp(
                                    Box::new(
                                        SCTerm::KApp(
                                            Box::new(SCTerm::KVar(z1 as nat)),
                                            Box::new(SCTerm::KVar(z2 as nat)),
                                        ),
                                    ),
                                    Box::new(kont@),
                                ),
                            ),
                        ),
                        self.vars as nat,
                    );
                }
                let e2_ = self.cps_transform(
                    *e2,
                    CTerm::KAbs(
                        z2,
                        Box::new(
                            CTerm::KApp(
                                Box::new(
                                    CTerm::KApp(
                                        Box::new(CTerm::KVar(z1)),
                                        Box::new(CTerm::KVar(z2)),
                                    ),
                                ),
                                Box::new(kont),
                            ),
                        ),
                    ),
                );
                self.cps_transform(*e1, CTerm::KAbs(z1, Box::new(e2_)))
            }
        }
    }
}

/// Counts the fresh variables `cps_transform` would need, or `None` when
/// the count itself does not fit in `usize`; lets a caller establish the
/// transform's budget before asking for it.
pub fn count_fresh_needed(t: &CpsTerm) -> (r: Option<usize>)
    ensures
        r matches Some(v) ==> v as nat == fresh_needed(t@),
        r is None ==> fresh_needed(t@) > usize::MAX,
    decreases *t,
{
    match t {
        CpsTerm::Var(_) => Some(0),
        CpsTerm::Abs(_, b) => match count_fresh_needed(&**b) {
            Some(v) => if v < usize::MAX {
                Some(v + 1)
            } else {
                None
            },
            None => None,
        },
        CpsTerm::App(a, b) => match (count_fresh_needed(&**a), count_fresh_needed(&**b)) {
            (Some(x), Some(y)) => if x <= usize::MAX - 2 && y <= usize::MAX - 2 - x {
                Some(2 + y + x)
            } else {
                None
            },
            _ => None,
        },
    }
}

} // verus!
