use abstract_machines::{abs, app, var};

#[test]
fn nf_tests_the_root_only() {
    assert!(var(0).nf());
    assert!(abs(app(var(0), var(0))).nf());
    assert!(!app(var(0), var(1)).nf());
}

#[test]
fn whnf_tests_the_operator_position() {
    assert!(var(3).whnf());
    assert!(abs(var(0)).whnf());
    assert!(app(var(0), app(var(1), var(2))).whnf());
    assert!(!app(app(var(0), var(1)), var(2)).whnf());
}

#[test]
fn clone_is_a_deep_copy() {
    let t = app(abs(var(0)), app(var(2), abs(var(1))));
    assert_eq!(t.clone(), t);
}
