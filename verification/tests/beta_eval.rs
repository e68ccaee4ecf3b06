use abstract_machines::beta::{EvalOutcome, eval, eval1, eval_outcome, shift, subst, subst_top};
use abstract_machines::church;
use abstract_machines::{abs, app, var};

#[test]
fn beta_eval_id() {
    let id = abs(var(0));
    let a = app(id.clone(), id.clone());
    let ev = eval(a);
    assert_eq!(ev, id);
}

#[test]
fn eval_subst1() {
    let t = app(abs(app(app(var(1), var(0)), var(2))), abs(var(0)));
    let res = app(app(var(0), abs(var(0))), var(1));
    assert_eq!(eval1(t), Ok(res));
}

#[test]
fn beta_numerals() {
    let c0 = abs(abs(var(0)));

    let succ = abs(abs(abs(app(app(var(2), var(1)), app(var(1), var(0))))));

    let plus = abs(abs(abs(abs(app(
        app(var(3), var(1)),
        app(app(var(2), var(1)), var(0)),
    )))));

    let c1 = app(succ.clone(), c0.clone());
    let c2 = app(succ.clone(), c1.clone());
    let c3 = app(succ.clone(), c2.clone());

    assert_eq!(
        eval(app(succ.clone(), c3)),
        eval(app(app(app(app(plus.clone(), c2.clone()), c2.clone()), succ), c0))
    );
}

#[test]
fn beta_eval_church() {
    let a = app(app(app(church::test(), church::tru()), var(5)), var(7));
    let b = app(app(app(church::test(), church::fls()), var(5)), var(7));
    let c = app(app(church::and(), church::fls()), church::tru());
    let d = app(app(church::and(), church::tru()), church::tru());
    assert_eq!(eval(a), var(5));
    assert_eq!(eval(b), var(7));
    assert_eq!(eval(app(app(church::tru(), var(1)), var(2))), var(1));
    assert_eq!(eval(app(app(church::fls(), var(1)), var(2))), var(2));
    assert_eq!(eval(c), church::fls());
    assert_eq!(eval(d), church::tru());
}

#[test]
fn beta_value_idempotent() {
    let id = abs(var(0));
    assert_eq!(eval(id.clone()), id);
    assert_eq!(eval(var(5)), var(5));
    assert_eq!(eval(abs(app(var(0), var(0)))), abs(app(var(0), var(0))));
}

#[test]
fn beta_stuck_application_returned_whole() {
    let stuck = app(var(0), abs(var(0)));
    assert_eq!(eval(stuck.clone()), stuck);
    let nested = app(abs(var(0)), app(var(3), abs(var(0))));
    assert_eq!(eval(nested.clone()), nested);
}

#[test]
fn outcome_separates_values_from_stuck_applications() {
    let id = abs(var(0));
    let a = app(id.clone(), id.clone());
    assert_eq!(eval_outcome(a), EvalOutcome::Value(id.clone()));
    let stuck = app(var(0), id);
    assert_eq!(eval_outcome(stuck.clone()), EvalOutcome::Stuck(stuck));
}

#[test]
fn shift_moves_free_variables_only() {
    let t = abs(app(var(0), var(1)));
    assert_eq!(shift(&t, 1), abs(app(var(0), var(2))));
    let back = abs(app(var(0), var(2)));
    assert_eq!(shift(&back, -1), abs(app(var(0), var(1))));
}

#[test]
fn subst_shifts_replacement_per_depth() {
    let t = app(var(0), abs(var(1)));
    let s = var(3);
    assert_eq!(subst(&t, &s), app(var(3), abs(var(4))));
}

#[test]
fn subst_top_adjusts_for_stripped_binder() {
    let t = app(var(0), var(1));
    let s = var(5);
    assert_eq!(subst_top(&t, &s), app(var(5), var(0)));
}
