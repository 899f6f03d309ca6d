use scheme_rs::{setup, DataType, Env, Function, Number};

fn integer(i: i64) -> DataType {
    DataType::Number(Number::Integer(i))
}

#[test]
fn env_new_binds_nothing() {
    let env = Env::new();
    assert_eq!(env.get("pi"), None);
    assert_eq!(env.get("+"), None);
    assert_eq!(env.get(""), None);
}

#[test]
fn env_define_then_get() {
    let mut env = Env::new();
    env.define("x".to_string(), integer(1));
    env.define("y".to_string(), DataType::Symbol("x".to_string()));
    assert_eq!(env.get("x"), Some(integer(1)));
    assert_eq!(env.get("y"), Some(DataType::Symbol("x".to_string())));
    assert_eq!(env.get("z"), None);
    env.define("x".to_string(), integer(2));
    assert_eq!(env.get("x"), Some(integer(2)));
    assert_eq!(env.get("y"), Some(DataType::Symbol("x".to_string())));
}

#[test]
fn env_get_gives_a_copy() {
    let mut env = Env::new();
    let list = DataType::List(vec![integer(1), DataType::List(vec![integer(2)])]);
    env.define("l".to_string(), list.clone());
    assert_eq!(env.get("l"), Some(list.clone()));
    assert_eq!(env.get("l"), Some(list));
}

#[test]
fn env_get_finds_the_nearest_scope() {
    let mut outer = Env::new();
    outer.define("a".to_string(), integer(1));
    outer.define("b".to_string(), integer(2));
    let mut middle = Env::with_parent(outer);
    middle.define("b".to_string(), integer(20));
    middle.define("c".to_string(), integer(30));
    let mut inner = Env::with_parent(middle);
    inner.define("c".to_string(), integer(300));
    assert_eq!(inner.get("a"), Some(integer(1)));
    assert_eq!(inner.get("b"), Some(integer(20)));
    assert_eq!(inner.get("c"), Some(integer(300)));
    assert_eq!(inner.get("d"), None);
}

#[test]
fn env_define_writes_the_innermost_scope_only() {
    let mut inner = Env::with_parent(setup());
    assert_eq!(inner.get("car"), Some(DataType::Proc(Function::Car)));
    inner.define("car".to_string(), integer(0));
    assert_eq!(inner.get("car"), Some(integer(0)));
    assert_eq!(inner.get("cdr"), Some(DataType::Proc(Function::Cdr)));
}

#[test]
fn setup_binds_pi_and_the_procedures() {
    let env = setup();
    assert_eq!(env.get("pi"), Some(DataType::Number(Number::Float(std::f64::consts::PI.to_bits()))));
    let procedures = [
        ("begin", Function::Begin),
        ("print", Function::Print),
        ("*", Function::Multiply),
        ("+", Function::Add),
        ("-", Function::Subtract),
        ("/", Function::Divide),
        ("list", Function::List),
        ("car", Function::Car),
        ("cdr", Function::Cdr),
    ];
    for (name, f) in procedures {
        assert_eq!(env.get(name), Some(DataType::Proc(f)), "{}", name);
        assert_eq!(f.name(), name);
    }
    for name in ["define", "quote", "lambda", "if", "PI", "Car", ""] {
        assert_eq!(env.get(name), None, "{}", name);
    }
}
