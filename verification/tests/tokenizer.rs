use scheme_rs::text::is_whitespace;
use scheme_rs::tokenize;

fn strings(tokens: &[&str]) -> Vec<String> {
    tokens.iter().map(|t| t.to_string()).collect()
}

#[test]
fn tokenize_simple_call() {
    assert_eq!(tokenize("(+ 1 2)"), strings(&["(", "+", "1", "2", ")"]));
}

#[test]
fn tokenize_empty_text_has_no_tokens() {
    assert_eq!(tokenize(""), Vec::<String>::new());
}

#[test]
fn tokenize_white_space_alone_has_no_tokens() {
    assert_eq!(tokenize(" \t\r\n  "), Vec::<String>::new());
}

#[test]
fn tokenize_parentheses_need_no_space() {
    assert_eq!(tokenize("(car(list 1 2))"), strings(&["(", "car", "(", "list", "1", "2", ")", ")"]));
    assert_eq!(tokenize("a(b)c"), strings(&["a", "(", "b", ")", "c"]));
    assert_eq!(tokenize("(()"), strings(&["(", "(", ")"]));
    assert_eq!(tokenize(")("), strings(&[")", "("]));
}

#[test]
fn tokenize_runs_of_white_space_separate_once() {
    assert_eq!(tokenize("  define   r\t10\n"), strings(&["define", "r", "10"]));
}

#[test]
fn tokenize_keeps_other_characters_together() {
    assert_eq!(tokenize("a'b \"c d\" ;x 1.5e3"), strings(&["a'b", "\"c", "d\"", ";x", "1.5e3"]));
}

#[test]
fn tokenize_splits_on_unicode_white_space() {
    assert_eq!(tokenize("a\u{a0}b\u{2003}c\u{3000}d\u{85}e"), strings(&["a", "b", "c", "d", "e"]));
    assert_eq!(tokenize("\u{3b1}\u{3b2} \u{3b3}"), strings(&["\u{3b1}\u{3b2}", "\u{3b3}"]));
    assert_eq!(tokenize("a\u{200b}b"), strings(&["a\u{200b}b"]));
}

#[test]
fn tokenize_agrees_with_padding_and_splitting() {
    let samples = [
        "(+ 1 2)",
        "",
        "((a)(b))",
        " ( x ) ",
        "(define r 10)",
        "(* pi (* r r))",
        "a\tb\nc",
        ")))((( x",
        "(print\u{2028}x)",
    ];
    for program in samples {
        let padded: String = program
            .chars()
            .flat_map(|c| if c == '(' || c == ')' { vec![' ', c, ' '] } else { vec![c] })
            .collect();
        let expected: Vec<String> = padded.split_whitespace().map(|t| t.to_string()).collect();
        assert_eq!(tokenize(program), expected, "{:?}", program);
    }
}

#[test]
fn white_space_is_the_unicode_property() {
    let mut code: u32 = 0;
    while code <= 0x10ffff {
        if let Some(c) = char::from_u32(code) {
            assert_eq!(is_whitespace(c), c.is_whitespace(), "U+{:04X}", code);
        }
        code += 1;
    }
}

#[test]
fn tokenize_long_text() {
    let mut program = String::new();
    let mut expected = Vec::new();
    for i in 0..500 {
        program.push_str(&format!("(sym{} {})\t", i, i));
        expected.push("(".to_string());
        expected.push(format!("sym{}", i));
        expected.push(format!("{}", i));
        expected.push(")".to_string());
    }
    assert!(program.len() > 5000);
    assert_eq!(tokenize(&program), expected);
}
