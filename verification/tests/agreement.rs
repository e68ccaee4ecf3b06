use abstract_machines::{abs, app, var, beta, cek, church};

#[test]
fn evaluators_agree_on_identity_application() {
    let id = abs(var(0));
    let a = app(id.clone(), id.clone());
    let by_subst = beta::eval(a.clone());
    let by_machine = cek::eval(a).unwrap();
    assert_eq!(by_subst, by_machine);
    assert_eq!(by_subst, id);
}

#[test]
fn evaluators_agree_on_booleans() {
    let c = app(app(church::and(), church::fls()), church::tru());
    assert_eq!(beta::eval(c.clone()), cek::eval(c).unwrap());
    let d = app(app(church::and(), church::tru()), church::tru());
    assert_eq!(beta::eval(d.clone()), cek::eval(d).unwrap());
    let t = app(
        app(app(church::test(), church::tru()), church::fls()),
        church::tru(),
    );
    assert_eq!(beta::eval(t.clone()), cek::eval(t).unwrap());
}

#[test]
fn evaluators_agree_on_values() {
    let v = abs(app(var(0), abs(var(1))));
    assert_eq!(beta::eval(v.clone()), cek::eval(v.clone()).unwrap());
    assert_eq!(beta::eval(v.clone()), v);
}
