use scheme_rs::{
    eval, interpret, parse, setup, DataType, Env, ErrorKind, FloatOp, Function, Number, SchemeError, AST,
};

fn arith(op: FloatOp) -> u64 {
    match op {
        FloatOp::FromInt(i) => (i as f64).to_bits(),
        FloatOp::Add(a, b) => (f64::from_bits(a) + f64::from_bits(b)).to_bits(),
        FloatOp::Mul(a, b) => (f64::from_bits(a) * f64::from_bits(b)).to_bits(),
        FloatOp::Div(a, b) => (f64::from_bits(a) / f64::from_bits(b)).to_bits(),
        FloatOp::Parse(text) => text.parse::<f64>().unwrap().to_bits(),
    }
}

fn show(bits: u64) -> String {
    format!("{}", f64::from_bits(bits))
}

fn run(env: &mut Env, program: &str) -> Result<Option<DataType>, SchemeError> {
    let mut out = Vec::new();
    interpret(program, env, &mut out, &arith, &show)
}

fn run_fresh(program: &str) -> Result<Option<DataType>, SchemeError> {
    run(&mut setup(), program)
}

fn integer(i: i64) -> DataType {
    DataType::Number(Number::Integer(i))
}

fn float(f: f64) -> DataType {
    DataType::Number(Number::Float(f.to_bits()))
}

fn as_float(value: Result<Option<DataType>, SchemeError>) -> f64 {
    match value {
        Ok(Some(DataType::Number(Number::Float(bits)))) => f64::from_bits(bits),
        other => panic!("not a float: {:?}", other),
    }
}

#[test]
fn eval_area_of_a_circle() {
    let mut env = setup();
    assert_eq!(run(&mut env, "(define r 10)"), Ok(None));
    let area = as_float(run(&mut env, "(* pi (* r r))"));
    assert!((area - 314.159265358979).abs() < 1e-9, "{}", area);
    assert_eq!(area, std::f64::consts::PI * 100.0);
}

#[test]
fn eval_sum_of_integers_is_an_integer() {
    assert_eq!(run_fresh("(+ 1 2 3)"), Ok(Some(integer(6))));
    assert_eq!(run_fresh("(+ 1)"), Ok(Some(integer(1))));
    assert_eq!(run_fresh("(+)"), Ok(Some(integer(0))));
    assert_eq!(run_fresh("(+ -5 5)"), Ok(Some(integer(0))));
}

#[test]
fn eval_any_float_makes_the_sum_a_float() {
    assert_eq!(run_fresh("(+ 1 2.0)"), Ok(Some(float(3.0))));
    assert_eq!(run_fresh("(+ 2.0 1)"), Ok(Some(float(3.0))));
    assert_eq!(run_fresh("(+ 1 2 3 0.5)"), Ok(Some(float(6.5))));
    assert_eq!(run_fresh("(+ 0.1 0.2)"), Ok(Some(float(0.1 + 0.2))));
    assert_eq!(run_fresh("(+ 1.5)"), Ok(Some(float(1.5))));
}

#[test]
fn eval_product() {
    assert_eq!(run_fresh("(* 2 3 4)"), Ok(Some(integer(24))));
    assert_eq!(run_fresh("(*)"), Ok(Some(integer(1))));
    assert_eq!(run_fresh("(* 2 0.5)"), Ok(Some(float(1.0))));
    assert_eq!(run_fresh("(* 1.5 1.5)"), Ok(Some(float(2.25))));
    assert_eq!(run_fresh("(* -3 3)"), Ok(Some(integer(-9))));
}

#[test]
fn eval_minus_negates_the_sum() {
    assert_eq!(run_fresh("(- 1 2 3)"), Ok(Some(integer(-6))));
    assert_ne!(run_fresh("(- 1 2 3)"), Ok(Some(integer(-4))));
    assert_eq!(run_fresh("(- 5)"), Ok(Some(integer(-5))));
    assert_eq!(run_fresh("(- 5 3)"), Ok(Some(integer(-8))));
    assert_eq!(run_fresh("(-)"), Ok(Some(integer(0))));
    assert_eq!(run_fresh("(- 1 2.5)"), Ok(Some(float(-3.5))));
    assert_eq!(run_fresh("(- -1 -2)"), Ok(Some(integer(3))));
}

#[test]
fn eval_divide_is_always_a_float() {
    assert_eq!(run_fresh("(/ 8 2)"), Ok(Some(float(4.0))));
    assert_eq!(run_fresh("(/ 1 2)"), Ok(Some(float(0.5))));
    assert_eq!(run_fresh("(/ 100 5 2)"), Ok(Some(float(10.0))));
    assert_eq!(run_fresh("(/ 7)"), Ok(Some(float(7.0))));
    assert_eq!(run_fresh("(/)"), Ok(Some(float(0.0))));
    assert_eq!(run_fresh("(/ 1.5 0.5)"), Ok(Some(float(3.0))));
    assert_eq!(run_fresh("(/ 1 0)"), Ok(Some(float(f64::INFINITY))));
}

#[test]
fn eval_divide_restarts_at_a_running_zero() {
    assert_eq!(run_fresh("(/ 0 5)"), Ok(Some(float(5.0))));
    assert_eq!(run_fresh("(/ 0 0 8 2)"), Ok(Some(float(4.0))));
    assert_eq!(run_fresh("(/ -0.0 5)"), Ok(Some(float(5.0))));
    assert_eq!(run_fresh("(/ 0.0)"), Ok(Some(float(0.0))));
    assert_eq!(run_fresh("(/ 1 inf 4)"), Ok(Some(float(4.0))));
}

#[test]
fn eval_arithmetic_wants_numbers() {
    for program in ["(+ 1 (list 2))", "(* 2 +)", "(- (list))", "(/ 1 car)", "(+ 1 2 3 (list 4) 5)"] {
        let r = run_fresh(program);
        assert_eq!(r, Err(SchemeError::NotANumber), "{}", program);
        assert_eq!(r.unwrap_err().kind(), ErrorKind::Type);
    }
    let mut env = setup();
    assert_eq!(run(&mut env, "(define s t)"), Ok(None));
    assert_eq!(run(&mut env, "(+ 1 s)"), Err(SchemeError::NotANumber));
}

#[test]
fn eval_integer_arithmetic_wraps() {
    assert_eq!(run_fresh("(+ 9223372036854775807 1)"), Ok(Some(integer(i64::MIN))));
    assert_eq!(run_fresh("(* 4611686018427387904 2)"), Ok(Some(integer(i64::MIN))));
    assert_eq!(run_fresh("(* 4611686018427387904 4)"), Ok(Some(integer(0))));
    assert_eq!(run_fresh("(- -9223372036854775808)"), Ok(Some(integer(i64::MIN))));
    assert_eq!(run_fresh("(- 9223372036854775807 1)"), Ok(Some(integer(i64::MIN))));
    assert_eq!(
        run_fresh("(* 3037000500 3037000500)"),
        Ok(Some(integer(3037000500i64.wrapping_mul(3037000500))))
    );
}

#[test]
fn eval_car_and_cdr() {
    assert_eq!(run_fresh("(car (list 1 2 3))"), Ok(Some(integer(1))));
    assert_eq!(run_fresh("(cdr (list 1 2 3))"), Ok(Some(DataType::List(vec![integer(2), integer(3)]))));
    assert_eq!(run_fresh("(cdr (list 1))"), Ok(Some(DataType::List(vec![]))));
    assert_eq!(run_fresh("(car (cdr (list 1 2.5 3)))"), Ok(Some(float(2.5))));
    assert_eq!(
        run_fresh("(car (list (list 1 2) 3))"),
        Ok(Some(DataType::List(vec![integer(1), integer(2)])))
    );
}

#[test]
fn eval_car_of_the_empty_list_fails() {
    assert_eq!(run_fresh("(car (list))"), Err(SchemeError::CarEmptyList));
    assert_eq!(run_fresh("(cdr (list))"), Err(SchemeError::CdrEmptyList));
    assert_eq!(SchemeError::CarEmptyList.message(), "car function requires a non-empty list");
    assert_eq!(SchemeError::CdrEmptyList.message(), "cdr function requires a non-empty list");
}

#[test]
fn eval_car_and_cdr_want_one_list() {
    assert_eq!(run_fresh("(car)"), Err(SchemeError::CarArity));
    assert_eq!(run_fresh("(car (list 1) (list 2))"), Err(SchemeError::CarArity));
    assert_eq!(run_fresh("(car 1)"), Err(SchemeError::CarNotList));
    assert_eq!(run_fresh("(car car)"), Err(SchemeError::CarNotList));
    assert_eq!(run_fresh("(cdr)"), Err(SchemeError::CdrArity));
    assert_eq!(run_fresh("(cdr (list 1) 2)"), Err(SchemeError::CdrArity));
    assert_eq!(run_fresh("(cdr 1.5)"), Err(SchemeError::CdrNotList));
    assert_eq!(SchemeError::CarArity.kind(), ErrorKind::Arity);
    assert_eq!(SchemeError::CdrArity.kind(), ErrorKind::Arity);
    assert_eq!(SchemeError::CarNotList.kind(), ErrorKind::Type);
    assert_eq!(SchemeError::CdrNotList.kind(), ErrorKind::Type);
}

#[test]
fn eval_list_keeps_the_order() {
    assert_eq!(run_fresh("(list)"), Ok(Some(DataType::List(vec![]))));
    assert_eq!(
        run_fresh("(list 3 1 2.5 car)"),
        Ok(Some(DataType::List(vec![integer(3), integer(1), float(2.5), DataType::Proc(Function::Car)])))
    );
    assert_eq!(
        run_fresh("(list (list) (list 1))"),
        Ok(Some(DataType::List(vec![DataType::List(vec![]), DataType::List(vec![integer(1)])])))
    );
}

#[test]
fn eval_undefined_symbol_is_a_name_error() {
    let mut env = setup();
    let r = run(&mut env, "x");
    assert_eq!(r, Err(SchemeError::UndefinedSymbol));
    assert_eq!(r.unwrap_err().kind(), ErrorKind::Name);
    assert_eq!(SchemeError::UndefinedSymbol.message(), "symbol is not defined.");
    assert_eq!(run(&mut env, "(+ 1 2)"), Ok(Some(integer(3))));
    assert_eq!(run(&mut env, "(define x 4)"), Ok(None));
    assert_eq!(run(&mut env, "x"), Ok(Some(integer(4))));
}

#[test]
fn eval_literals() {
    assert_eq!(run_fresh("7"), Ok(Some(integer(7))));
    assert_eq!(run_fresh("-7"), Ok(Some(integer(-7))));
    assert_eq!(run_fresh("7.25"), Ok(Some(float(7.25))));
    assert_eq!(run_fresh("pi"), Ok(Some(float(std::f64::consts::PI))));
    assert_eq!(run_fresh("car"), Ok(Some(DataType::Proc(Function::Car))));
}

#[test]
fn eval_tree_directly() {
    let mut env = setup();
    let mut out = Vec::new();
    let tree = AST::Children(vec![AST::Symbol("+".to_string()), AST::Integer(1), AST::Integer(2)]);
    assert_eq!(eval(&tree, &mut env, &mut out, &arith, &show), Ok(Some(integer(3))));
    assert_eq!(eval(&tree, &mut env, &mut out, &arith, &show), Ok(Some(integer(3))));
    let literal = AST::Float("1.50".to_string());
    assert_eq!(eval(&literal, &mut env, &mut out, &arith, &show), Ok(Some(float(1.5))));
    let definition = AST::Children(vec![AST::Symbol("define".to_string()), AST::Symbol("h".to_string()), literal]);
    assert_eq!(eval(&definition, &mut env, &mut out, &arith, &show), Ok(None));
    assert_eq!(env.get("h"), Some(float(1.5)));
    assert!(out.is_empty());
}

#[test]
fn eval_define_binds_literals_and_symbols_unevaluated() {
    let mut env = setup();
    assert_eq!(run(&mut env, "(define a 1)"), Ok(None));
    assert_eq!(run(&mut env, "(define b 2.5)"), Ok(None));
    assert_eq!(run(&mut env, "(define c a)"), Ok(None));
    assert_eq!(run(&mut env, "(define d nowhere)"), Ok(None));
    assert_eq!(run(&mut env, "a"), Ok(Some(integer(1))));
    assert_eq!(run(&mut env, "b"), Ok(Some(float(2.5))));
    assert_eq!(run(&mut env, "c"), Ok(Some(DataType::Symbol("a".to_string()))));
    assert_eq!(run(&mut env, "d"), Ok(Some(DataType::Symbol("nowhere".to_string()))));
}

#[test]
fn eval_define_overwrites() {
    let mut env = setup();
    assert_eq!(run(&mut env, "(define a 1)"), Ok(None));
    assert_eq!(run(&mut env, "(define a 2)"), Ok(None));
    assert_eq!(run(&mut env, "a"), Ok(Some(integer(2))));
    assert_eq!(run(&mut env, "(define pi 3)"), Ok(None));
    assert_eq!(run(&mut env, "pi"), Ok(Some(integer(3))));
    assert_eq!(run(&mut env, "(define car 1)"), Ok(None));
    assert_eq!(run(&mut env, "(car (list 1))"), Err(SchemeError::NotAProcedure));
}

#[test]
fn eval_malformed_define() {
    for program in [
        "(define)",
        "(define x)",
        "(define x 1 2)",
        "(define 1 2)",
        "(define 1.5 2)",
        "(define (x) 2)",
        "(define x (+ 1 2))",
        "(define x ())",
    ] {
        let mut env = setup();
        let r = run(&mut env, program);
        assert_eq!(r, Err(SchemeError::MalformedDefine), "{}", program);
        assert_eq!(r.unwrap_err().kind(), ErrorKind::Syntax);
        assert_eq!(run(&mut env, "x"), Err(SchemeError::UndefinedSymbol), "{}", program);
    }
    assert_eq!(SchemeError::MalformedDefine.message(), "wrong syntax for define expression");
}

#[test]
fn eval_empty_form_and_bad_heads() {
    assert_eq!(run_fresh("()"), Err(SchemeError::EmptyForm));
    assert_eq!(run_fresh("(1 2 3)"), Err(SchemeError::HeadNotSymbol));
    assert_eq!(run_fresh("(1.5)"), Err(SchemeError::HeadNotSymbol));
    assert_eq!(run_fresh("((+ 1 2) 3)"), Err(SchemeError::HeadNotSymbol));
    assert_eq!(SchemeError::EmptyForm.kind(), ErrorKind::Syntax);
    assert_eq!(SchemeError::HeadNotSymbol.kind(), ErrorKind::Syntax);
}

#[test]
fn eval_head_must_be_a_procedure() {
    assert_eq!(run_fresh("(nothing 1 2)"), Err(SchemeError::NotAProcedure));
    assert_eq!(run_fresh("(pi 1 2)"), Err(SchemeError::NotAProcedure));
    let mut env = setup();
    assert_eq!(run(&mut env, "(define f car)"), Ok(None));
    assert_eq!(run(&mut env, "(f (list 1))"), Err(SchemeError::NotAProcedure));
    assert_eq!(SchemeError::NotAProcedure.kind(), ErrorKind::Name);
    assert_eq!(SchemeError::NotAProcedure.message(), "Symbol is not defined.");
}

#[test]
fn eval_head_is_checked_before_the_arguments() {
    let mut env = setup();
    assert_eq!(run(&mut env, "(nothing (define x 1))"), Err(SchemeError::NotAProcedure));
    assert_eq!(run(&mut env, "x"), Err(SchemeError::UndefinedSymbol));
}

#[test]
fn eval_failing_argument_is_left_out() {
    assert_eq!(run_fresh("(+ 1 nothing 2)"), Ok(Some(integer(3))));
    assert_eq!(run_fresh("(list 1 (car (list)) 2)"), Ok(Some(DataType::List(vec![integer(1), integer(2)]))));
    assert_eq!(run_fresh("(+ 1 (+ 2 car) 4)"), Ok(Some(integer(5))));
    assert_eq!(run_fresh("(car nothing)"), Err(SchemeError::CarArity));
    assert_eq!(run_fresh("(+ 1 () 2)"), Ok(Some(integer(3))));
}

#[test]
fn eval_failing_argument_does_not_fail_the_call() {
    assert_ne!(run_fresh("(+ 1 nothing 2)"), Err(SchemeError::UndefinedSymbol));
    assert_ne!(run_fresh("(list 1 (car (list)) 2)"), Err(SchemeError::CarEmptyList));
    assert!(run_fresh("(begin nothing)").is_ok());
}

#[test]
fn eval_argument_without_a_value_is_left_out() {
    let mut env = setup();
    assert_eq!(run(&mut env, "(+ 1 (define x 5) x)"), Ok(Some(integer(6))));
    assert_eq!(run(&mut env, "x"), Ok(Some(integer(5))));
    assert_eq!(run(&mut env, "(list (define y 1) (begin))"), Ok(Some(DataType::List(vec![]))));
}

#[test]
fn eval_arguments_go_from_left_to_right() {
    let mut env = setup();
    assert_eq!(run(&mut env, "(list x (define x 1) x (define x 2) x)"), Ok(Some(DataType::List(vec![integer(1), integer(2)]))));
    let mut out = Vec::new();
    let r = interpret("(begin (print 1) (print 2) (print 3))", &mut env, &mut out, &arith, &show);
    assert_eq!(r, Ok(None));
    assert_eq!(out, vec!["1".to_string(), "2".to_string(), "3".to_string()]);
}

#[test]
fn eval_what_a_failed_argument_did_stays_done() {
    let mut env = setup();
    let mut out = Vec::new();
    let r = interpret("(list (+ (define z 9) (print 7) (list)) 2)", &mut env, &mut out, &arith, &show);
    assert_eq!(r, Ok(Some(DataType::List(vec![integer(2)]))));
    assert_eq!(out, vec!["7".to_string()]);
    assert_eq!(run(&mut env, "z"), Ok(Some(integer(9))));
}

#[test]
fn eval_begin_gives_the_last_argument() {
    assert_eq!(run_fresh("(begin 1 2 3)"), Ok(Some(integer(3))));
    assert_eq!(run_fresh("(begin)"), Ok(None));
    assert_eq!(run_fresh("(begin (list 1) 2.5)"), Ok(Some(float(2.5))));
    let mut env = setup();
    assert_eq!(run(&mut env, "(begin (define r 3) (* r r))"), Ok(Some(integer(9))));
    assert_eq!(run(&mut env, "(begin 1 (define q 3))"), Ok(Some(integer(1))));
}

#[test]
fn eval_print_writes_one_line() {
    let mut env = setup();
    let mut out = vec!["before".to_string()];
    assert_eq!(interpret("(print (list 1 2.5 (list) car))", &mut env, &mut out, &arith, &show), Ok(None));
    assert_eq!(out, vec!["before".to_string(), "'(1 2.5 '() #<procedure:car>)".to_string()]);
    assert_eq!(interpret("(print 42)", &mut env, &mut out, &arith, &show), Ok(None));
    assert_eq!(out.len(), 3);
    assert_eq!(out[2], "42");
}

#[test]
fn eval_print_wants_one_argument() {
    let mut env = setup();
    let mut out = Vec::new();
    assert_eq!(interpret("(print)", &mut env, &mut out, &arith, &show), Err(SchemeError::PrintArity));
    assert_eq!(interpret("(print 1 2)", &mut env, &mut out, &arith, &show), Err(SchemeError::PrintArity));
    assert_eq!(interpret("(print nothing)", &mut env, &mut out, &arith, &show), Err(SchemeError::PrintArity));
    assert!(out.is_empty());
    assert_eq!(SchemeError::PrintArity.kind(), ErrorKind::Arity);
    assert_eq!(SchemeError::PrintArity.message(), "print function requires one argument only");
}

#[test]
fn eval_uses_the_arithmetic_unit_it_is_given() {
    let odd = |op: FloatOp| match op {
        FloatOp::FromInt(i) => 1000 + i as u64,
        FloatOp::Add(a, b) => a.wrapping_mul(3).wrapping_add(b),
        FloatOp::Mul(a, b) => a.wrapping_mul(5).wrapping_add(b),
        FloatOp::Div(a, b) => a.wrapping_mul(7).wrapping_add(b),
        FloatOp::Parse(text) => text.len() as u64,
    };
    let one: u64 = 0x3ff0_0000_0000_0000;
    let minus_one: u64 = 0xbff0_0000_0000_0000;
    let minus_zero: u64 = 0x8000_0000_0000_0000;
    let mut env = setup();
    let mut out = Vec::new();
    let mut go = |program: &str| interpret(program, &mut env, &mut out, &odd, &show);
    let bits = |b: u64| Ok(Some(DataType::Number(Number::Float(b))));
    assert_eq!(go("2.50"), bits(4));
    assert_eq!(
        go("(+ 1 2.50)"),
        bits(minus_zero.wrapping_mul(3).wrapping_add(1001).wrapping_mul(3).wrapping_add(4))
    );
    assert_eq!(go("(* 2.5 3)"), bits(one.wrapping_mul(5).wrapping_add(3).wrapping_mul(5).wrapping_add(1003)));
    assert_eq!(
        go("(- 2.5)"),
        bits(minus_zero.wrapping_mul(3).wrapping_add(3).wrapping_mul(5).wrapping_add(minus_one))
    );
    assert_eq!(go("(/ 5 2.5)"), bits(1005 * 7 + 3));
    assert_eq!(go("(+ 1 2)"), Ok(Some(integer(3))));
}

#[test]
fn interpret_reads_the_first_form_only() {
    let mut env = setup();
    assert_eq!(run(&mut env, "(define a 1) (define b 2)"), Ok(None));
    assert_eq!(run(&mut env, "a"), Ok(Some(integer(1))));
    assert_eq!(run(&mut env, "b"), Err(SchemeError::UndefinedSymbol));
    assert_eq!(run(&mut env, "1 )"), Ok(Some(integer(1))));
}

#[test]
fn interpret_fails_as_the_reader_does() {
    let mut env = setup();
    assert_eq!(run(&mut env, "(+ 1 2"), Err(SchemeError::UnterminatedList));
    assert_eq!(run(&mut env, ""), Err(SchemeError::UnexpectedEof));
    assert_eq!(run(&mut env, ")"), Err(SchemeError::UnexpectedCloseParen));
    assert_eq!(run(&mut env, "(+ 1 2)"), Ok(Some(integer(3))));
    assert!(parse("(+ 1 2").is_err());
}
