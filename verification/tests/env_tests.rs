use mal::env::Env;
use mal::types::MalExpression;
use mal::types::MalExpression::Int;
use mal::types::iterate_rc_vec;

#[test]
fn env_set_and_get() {
    let mut root = Env::simple_new(None).unwrap();
    root.set("x", Int(1));
    root.set("y", Int(2));
    root.set("x", Int(3));
    let envs = vec![root];
    assert_eq!(format!("{:?}", Env::get(&envs, 0, "x").unwrap()), "Int(3)");
    assert_eq!(format!("{:?}", Env::get(&envs, 0, "y").unwrap()), "Int(2)");
    assert!(Env::get(&envs, 0, "z").is_none());
}

#[test]
fn env_child_shadows_parent() {
    let mut root = Env::simple_new(None).unwrap();
    root.set("x", Int(1));
    root.set("y", Int(9));
    let mut child = Env::simple_new(Some(0)).unwrap();
    child.set("x", Int(2));
    let envs = vec![root, child];
    assert_eq!(format!("{:?}", Env::get(&envs, 1, "x").unwrap()), "Int(2)");
    assert_eq!(format!("{:?}", Env::get(&envs, 1, "y").unwrap()), "Int(9)");
    assert_eq!(Env::get_env_top_level(&envs, 1), 0);
    assert_eq!(Env::get_env_top_level(&envs, 0), 0);
}

#[test]
fn env_new_binds_params() {
    let binds = vec!["a".to_string(), "b".to_string()];
    let exprs = vec![Int(1), Int(2)];
    let node = Env::new(None, &binds, &exprs).unwrap();
    let envs = vec![node];
    assert_eq!(format!("{:?}", Env::get(&envs, 0, "a").unwrap()), "Int(1)");
    assert_eq!(format!("{:?}", Env::get(&envs, 0, "b").unwrap()), "Int(2)");
}

#[test]
fn env_new_rest_binding() {
    let binds = vec!["a".to_string(), "&".to_string(), "more".to_string()];
    let exprs = vec![Int(1), Int(2), Int(3)];
    let node = Env::new(None, &binds, &exprs).unwrap();
    let envs = vec![node];
    assert_eq!(
        format!("{:?}", Env::get(&envs, 0, "more").unwrap()),
        "List([Int(2), Int(3)])"
    );
}

#[test]
fn env_new_arity_errors() {
    let binds = vec!["a".to_string(), "b".to_string()];
    let exprs = vec![Int(1)];
    assert!(Env::new(None, &binds, &exprs).is_err());
    let binds2 = vec!["a".to_string(), "&".to_string()];
    assert!(Env::new(None, &binds2, &exprs).is_err());
    // Surplus arguments without `&` are a bind-time error too.
    let binds3 = vec!["a".to_string()];
    let exprs3 = vec![Int(1), Int(2)];
    assert!(Env::new(None, &binds3, &exprs3).is_err());
}

#[test]
fn value_helpers() {
    assert!(MalExpression::Nil().is_nil());
    assert!(MalExpression::Boolean(false).is_false());
    assert!(!MalExpression::Boolean(true).is_false());
    assert!(!MalExpression::Nil().is_true_in_if());
    assert!(Int(0).is_true_in_if());
    let l = MalExpression::List(vec![Int(4), Int(5)]);
    assert_eq!(format!("{:?}", l.first().unwrap()), "Int(4)");
    assert!(Int(1).first().is_none());
    assert!(l.equals(&MalExpression::Vector(vec![Int(4), Int(5)])));
    assert!(!l.equals(&MalExpression::List(vec![Int(4)])));
    assert!(Int(1).equals(&Int(1)));
    let copies = iterate_rc_vec(&vec![Int(1), Int(2)]);
    assert_eq!(format!("{:?}", copies), "[Int(1), Int(2)]");
}
