use abstract_machines::cek::{Closure, Continuation, Env, Machine, MachineError, eval};
use abstract_machines::church;
use abstract_machines::{abs, app, var};
use std::rc::Rc;

#[test]
fn cek_eval_id() {
    let id = abs(var(0));
    let a = app(id.clone(), id.clone());
    let ev = eval(a);
    assert_eq!(ev, Ok(id));
}

#[test]
fn cek_numerals() {
    let c0 = abs(abs(var(0)));

    let succ = abs(abs(abs(app(app(var(2), var(1)), app(var(1), var(0))))));

    let plus = abs(abs(abs(abs(app(
        app(var(3), var(1)),
        app(app(var(2), var(1)), var(0)),
    )))));

    let c1 = app(succ.clone(), c0.clone());
    let c2 = app(succ.clone(), c1.clone());
    let c3 = app(succ.clone(), c2.clone());

    assert_eq!(
        eval(app(succ.clone(), c3)),
        eval(app(app(app(app(plus.clone(), c2.clone()), c2.clone()), succ), c0))
    );
}

#[test]
fn cek_eval_church() {
    let a = app(
        app(app(church::test(), church::tru()), church::fls()),
        church::tru(),
    );
    let b = app(
        app(app(church::test(), church::fls()), church::fls()),
        church::tru(),
    );
    let c = app(app(church::and(), church::fls()), church::tru());
    let d = app(app(church::and(), church::tru()), church::tru());
    assert_eq!(eval(a), Ok(church::fls()));
    assert_eq!(eval(b), Ok(church::tru()));
    assert_eq!(eval(c), Ok(church::fls()));
    assert_eq!(eval(d), Ok(church::tru()));
}

#[test]
fn cek_value_idempotent() {
    let id = abs(var(0));
    assert_eq!(eval(id.clone()), Ok(id));
    let f = abs(app(var(0), var(0)));
    assert_eq!(eval(f.clone()), Ok(f));
}

#[test]
fn cek_unbound_variable_fails() {
    assert_eq!(eval(var(0)), Err(MachineError::UnboundVariable));
    assert_eq!(
        eval(app(abs(var(1)), abs(var(0)))),
        Err(MachineError::UnboundVariable)
    );
}

#[test]
fn lookup_past_single_frame_fails() {
    let root = Rc::new(Env::default());
    let clo = Closure { term: abs(var(0)), env: Rc::new(Env::default()) };
    let one_frame = Env::extend(root, clo);
    assert!(one_frame.lookup(2).is_none());
    assert!(one_frame.lookup(1).is_none());
    assert!(one_frame.lookup(0).is_some());
}

#[test]
fn step_rejects_undefined_transition() {
    let m = Machine {
        control: abs(var(0)),
        env: Rc::new(Env::default()),
        kont: Continuation::Call(
            var(0),
            Rc::new(Env::default()),
            Box::new(Continuation::Return),
        ),
    };
    assert!(matches!(m.step(), Err(MachineError::InvalidState)));
}
