use scheme_rs::{atom, parse, read_from_tokens, tokenize, ReadFromTokenResult, SchemeError, AST};

fn strings(tokens: &[&str]) -> Vec<String> {
    tokens.iter().map(|t| t.to_string()).collect()
}

fn symbol(text: &str) -> AST {
    AST::Symbol(text.to_string())
}

fn float(text: &str) -> AST {
    AST::Float(text.to_string())
}

fn read(tokens: &[&str]) -> Result<ReadFromTokenResult, SchemeError> {
    read_from_tokens(strings(tokens))
}

#[test]
fn read_simple_call() {
    let read = read(&["(", "+", "1", "2", ")"]).unwrap();
    assert_eq!(read.result, AST::Children(vec![symbol("+"), AST::Integer(1), AST::Integer(2)]));
    assert_eq!(read.remain, Vec::<String>::new());
}

#[test]
fn read_what_the_tokenizer_gives() {
    let read = read_from_tokens(tokenize("(+ 1 2)")).unwrap();
    assert_eq!(read.result, AST::Children(vec![symbol("+"), AST::Integer(1), AST::Integer(2)]));
    assert!(read.remain.is_empty());
}

#[test]
fn read_missing_close_paren_is_unterminated() {
    assert_eq!(read_from_tokens(tokenize("(+ 1 2")), Err(SchemeError::UnterminatedList));
    assert_eq!(parse("(+ 1 2"), Err(SchemeError::UnterminatedList));
    assert_eq!(read(&["("]), Err(SchemeError::UnterminatedList));
    assert_eq!(read(&["(", "(", ")"]), Err(SchemeError::UnterminatedList));
    assert_eq!(read(&["(", "a", "(", "b", ")"]), Err(SchemeError::UnterminatedList));
    assert_eq!(read(&["(", "(", "(", "x"]), Err(SchemeError::UnterminatedList));
}

#[test]
fn read_no_tokens_is_end_of_input() {
    assert_eq!(read(&[]), Err(SchemeError::UnexpectedEof));
    assert_eq!(parse(""), Err(SchemeError::UnexpectedEof));
    assert_eq!(parse("   "), Err(SchemeError::UnexpectedEof));
}

#[test]
fn read_stray_close_paren() {
    assert_eq!(read(&[")"]), Err(SchemeError::UnexpectedCloseParen));
    assert_eq!(read(&[")", "a"]), Err(SchemeError::UnexpectedCloseParen));
    assert_eq!(parse(") (+ 1 2)"), Err(SchemeError::UnexpectedCloseParen));
}

#[test]
fn read_atom_alone() {
    let read = read(&["42"]).unwrap();
    assert_eq!(read.result, AST::Integer(42));
    assert!(read.remain.is_empty());
}

#[test]
fn read_leaves_the_tokens_after_the_first_form() {
    let first = read(&["(", "define", "r", "10", ")", "(", "*", "r", "r", ")", "x"]).unwrap();
    assert_eq!(first.result, AST::Children(vec![symbol("define"), symbol("r"), AST::Integer(10)]));
    assert_eq!(first.remain, strings(&["(", "*", "r", "r", ")", "x"]));
    let second = read_from_tokens(first.remain).unwrap();
    assert_eq!(second.result, AST::Children(vec![symbol("*"), symbol("r"), symbol("r")]));
    assert_eq!(second.remain, strings(&["x"]));
    let third = read_from_tokens(second.remain).unwrap();
    assert_eq!(third.result, symbol("x"));
    assert!(third.remain.is_empty());
    assert_eq!(read_from_tokens(third.remain), Err(SchemeError::UnexpectedEof));
}

#[test]
fn read_close_paren_after_a_form_is_left() {
    let read = read(&["a", ")"]).unwrap();
    assert_eq!(read.result, symbol("a"));
    assert_eq!(read.remain, strings(&[")"]));
}

#[test]
fn read_nested_lists() {
    let read = parse("(* pi (* r 2.5))").unwrap();
    assert_eq!(
        read.result,
        AST::Children(vec![
            symbol("*"),
            symbol("pi"),
            AST::Children(vec![symbol("*"), symbol("r"), float("2.5")]),
        ])
    );
    assert!(read.remain.is_empty());
}

#[test]
fn read_empty_list() {
    let read = parse("()").unwrap();
    assert_eq!(read.result, AST::Children(vec![]));
    let read = parse("(())").unwrap();
    assert_eq!(read.result, AST::Children(vec![AST::Children(vec![])]));
}

#[test]
fn read_deep_nesting() {
    let depth = 200;
    let program = format!("{}x{}", "(".repeat(depth), ")".repeat(depth));
    let mut expected = symbol("x");
    for _ in 0..depth {
        expected = AST::Children(vec![expected]);
    }
    assert_eq!(parse(&program).unwrap().result, expected);
}

#[test]
fn atom_integer_first() {
    assert_eq!(atom("1"), AST::Integer(1));
    assert_eq!(atom("-17"), AST::Integer(-17));
    assert_eq!(atom("+17"), AST::Integer(17));
    assert_eq!(atom("9223372036854775807"), AST::Integer(i64::MAX));
    assert_eq!(atom("-9223372036854775808"), AST::Integer(i64::MIN));
}

#[test]
fn atom_float_second() {
    for token in [
        "2.0", "2.5", "2.50", "-0.5", ".5", "1.", "1e3", "1E-2", "inf", "-infinity", "NaN",
        "9223372036854775808", "-9223372036854775809", "3.141592653589793",
    ] {
        assert_eq!(atom(token), float(token), "{:?}", token);
    }
}

#[test]
fn atom_symbol_last() {
    for token in ["+", "-", "*", "/", "define", "pi", "r", "car", "x1", "1x", "1.2.3", "e5", ".", "--1", "\u{3bb}"] {
        assert_eq!(atom(token), symbol(token), "{:?}", token);
    }
}

#[test]
fn atom_agrees_with_std_parsing() {
    for token in ["0", "-7", "1.5", "abc", "inf", "nan", "1e400", "-1e400", "1e-400", "0.1", "12345678901234567890", "+", "1+", "+1.e2", "Infinity", "infinit"] {
        let expected = if let Ok(i) = token.parse::<i64>() {
            AST::Integer(i)
        } else if token.parse::<f64>().is_ok() {
            AST::Float(token.to_string())
        } else {
            AST::Symbol(token.to_string())
        };
        assert_eq!(atom(token), expected, "{:?}", token);
    }
}
