use abstract_machines::cps::{CTerm, CpsTerm, Transform, count_fresh_needed};

fn cvar(s: &str) -> CpsTerm {
    CpsTerm::Var(s.to_string())
}

fn cabs(s: &str, b: CpsTerm) -> CpsTerm {
    CpsTerm::Abs(s.to_string(), Box::new(b))
}

fn capp(a: CpsTerm, b: CpsTerm) -> CpsTerm {
    CpsTerm::App(Box::new(a), Box::new(b))
}

#[test]
fn transform_starts_at_zero() {
    let t = Transform::default();
    assert_eq!(t.vars, 0);
}

#[test]
fn cps_transform_variable() {
    let mut t = Transform::default();
    let r = t.cps_transform(cvar("x"), CTerm::Return);
    assert_eq!(
        r,
        CTerm::KApp(
            Box::new(CTerm::Return),
            Box::new(CTerm::Var("x".to_string()))
        )
    );
    assert_eq!(t.vars, 0);
}

#[test]
fn cps_transform_abstraction() {
    let mut t = Transform::default();
    let r = t.cps_transform(cabs("x", cvar("x")), CTerm::Return);
    let body = CTerm::KApp(
        Box::new(CTerm::KVar(0)),
        Box::new(CTerm::Var("x".to_string())),
    );
    let expected = CTerm::KApp(
        Box::new(CTerm::Return),
        Box::new(CTerm::KAbs(
            0,
            Box::new(CTerm::Abs("x".to_string(), Box::new(body))),
        )),
    );
    assert_eq!(r, expected);
    assert_eq!(t.vars, 1);
}

#[test]
fn cps_transform_application() {
    let mut t = Transform::default();
    let r = t.cps_transform(capp(cvar("f"), cvar("a")), CTerm::Return);
    let arg_kont = CTerm::KAbs(
        0,
        Box::new(CTerm::KApp(
            Box::new(CTerm::KApp(
                Box::new(CTerm::KVar(0)),
                Box::new(CTerm::KVar(1)),
            )),
            Box::new(CTerm::Return),
        )),
    );
    let e2 = CTerm::KApp(Box::new(arg_kont), Box::new(CTerm::Var("a".to_string())));
    let expected = CTerm::KApp(
        Box::new(CTerm::KAbs(1, Box::new(e2))),
        Box::new(CTerm::Var("f".to_string())),
    );
    assert_eq!(r, expected);
    assert_eq!(t.vars, 2);
}

#[test]
fn cps_top_level_mints_extra_variable() {
    let mut t = Transform::default();
    let r = t.cps(cabs("x", cvar("x")), CTerm::Return);
    let body = CTerm::KApp(
        Box::new(CTerm::KVar(0)),
        Box::new(CTerm::Var("x".to_string())),
    );
    let expected = CTerm::KApp(
        Box::new(CTerm::Return),
        Box::new(CTerm::KAbs(
            0,
            Box::new(CTerm::Abs("x".to_string(), Box::new(body))),
        )),
    );
    assert_eq!(r, expected);
    assert_eq!(t.vars, 2);
}

#[test]
fn count_fresh_needed_matches_transform() {
    assert_eq!(count_fresh_needed(&cvar("x")), Some(0));
    assert_eq!(count_fresh_needed(&cabs("x", cvar("x"))), Some(1));
    assert_eq!(count_fresh_needed(&capp(cvar("f"), cvar("a"))), Some(2));
    let nested = cabs("x", capp(cvar("x"), cabs("y", cvar("y"))));
    assert_eq!(count_fresh_needed(&nested), Some(4));
}
