use citrine::eval_str;
use citrine::parse;
use citrine::standard_env;
use citrine::tokenize;
use citrine::TokenKind;
use citrine::Value;

#[test]
fn integration_tests_test_tokenize_simple() {
    let tokens = tokenize("(+ 1 2)");
    let kinds: Vec<TokenKind> = tokens.iter().map(|t| t.kind).collect();
    assert_eq!(
        kinds,
        vec![
            TokenKind::LeftParen,
            TokenKind::Symbol,
            TokenKind::Whitespace,
            TokenKind::Number,
            TokenKind::Whitespace,
            TokenKind::Number,
            TokenKind::RightParen,
            TokenKind::Eof,
        ]
    );
    let texts: Vec<&str> = tokens.iter().map(|t| t.text.as_str()).collect();
    assert_eq!(texts, vec!["(", "+", " ", "1", " ", "2", ")", ""]);
    assert_eq!(tokens[0].start, 0);
    assert_eq!(tokens[0].end, 1);
    assert_eq!(tokens[3].start, 3);
    assert_eq!(tokens[3].end, 4);
    assert_eq!(tokens[7].start, 7);
    assert_eq!(tokens[7].end, 7);
}

#[test]
fn integration_tests_test_parse_simple() {
    let expected = "Root@0..7\n  List@0..7\n    LeftParen@0..1 \"(\"\n    SymbolLit@1..2\n      Symbol@1..2 \"+\"\n    WhitespaceToken@2..3 \" \"\n    NumberLit@3..4\n      Number@3..4 \"1\"\n    WhitespaceToken@4..5 \" \"\n    NumberLit@5..6\n      Number@5..6 \"2\"\n    RightParen@6..7 \")\"\n  Eof@7..7 \"\"\n";
    assert_eq!(parse("(+ 1 2)").dump(), expected);
}

#[test]
fn integration_tests_test_parse_nested() {
    let input = "(defn factorial [n] (if (= n 0) 1 (* n (factorial (- n 1)))))";
    let expected = "Root@0..61\n  List@0..61\n    LeftParen@0..1 \"(\"\n    SymbolLit@1..5\n      Symbol@1..5 \"defn\"\n    WhitespaceToken@5..6 \" \"\n    SymbolLit@6..15\n      Symbol@6..15 \"factorial\"\n    WhitespaceToken@15..16 \" \"\n    Vector@16..19\n      LeftBracket@16..17 \"[\"\n      SymbolLit@17..18\n        Symbol@17..18 \"n\"\n      RightBracket@18..19 \"]\"\n    WhitespaceToken@19..20 \" \"\n    List@20..60\n      LeftParen@20..21 \"(\"\n      SymbolLit@21..23\n        Symbol@21..23 \"if\"\n      WhitespaceToken@23..24 \" \"\n      List@24..31\n        LeftParen@24..25 \"(\"\n        SymbolLit@25..26\n          Symbol@25..26 \"=\"\n        WhitespaceToken@26..27 \" \"\n        SymbolLit@27..28\n          Symbol@27..28 \"n\"\n        WhitespaceToken@28..29 \" \"\n        NumberLit@29..30\n          Number@29..30 \"0\"\n        RightParen@30..31 \")\"\n      WhitespaceToken@31..32 \" \"\n      NumberLit@32..33\n        Number@32..33 \"1\"\n      WhitespaceToken@33..34 \" \"\n      List@34..59\n        LeftParen@34..35 \"(\"\n        SymbolLit@35..36\n          Symbol@35..36 \"*\"\n        WhitespaceToken@36..37 \" \"\n        SymbolLit@37..38\n          Symbol@37..38 \"n\"\n        WhitespaceToken@38..39 \" \"\n        List@39..58\n          LeftParen@39..40 \"(\"\n          SymbolLit@40..49\n            Symbol@40..49 \"factorial\"\n          WhitespaceToken@49..50 \" \"\n          List@50..57\n            LeftParen@50..51 \"(\"\n            SymbolLit@51..52\n              Symbol@51..52 \"-\"\n            WhitespaceToken@52..53 \" \"\n            SymbolLit@53..54\n              Symbol@53..54 \"n\"\n            WhitespaceToken@54..55 \" \"\n            NumberLit@55..56\n              Number@55..56 \"1\"\n            RightParen@56..57 \")\"\n          RightParen@57..58 \")\"\n        RightParen@58..59 \")\"\n      RightParen@59..60 \")\"\n    RightParen@60..61 \")\"\n  Eof@61..61 \"\"\n";
    assert_eq!(parse(input).dump(), expected);
}

#[test]
fn integration_tests_test_eval_simple() {
    let mut env = standard_env();

    // Test arithmetic
    assert_eq!(eval_str("(+ 1 2 3)", &mut env).unwrap(), Value::Number(6));
    assert_eq!(eval_str("(- 10 2 3)", &mut env).unwrap(), Value::Number(5));
    assert_eq!(eval_str("(* 2 3 4)", &mut env).unwrap(), Value::Number(24));
    assert_eq!(eval_str("(/ 12 2 3)", &mut env).unwrap(), Value::Number(2));

    // Test comparison
    assert_eq!(eval_str("(= 1 1 1)", &mut env).unwrap(), Value::Boolean(true));
    assert_eq!(eval_str("(= 1 2 1)", &mut env).unwrap(), Value::Boolean(false));
    assert_eq!(eval_str("(< 1 2)", &mut env).unwrap(), Value::Boolean(true));
    assert_eq!(eval_str("(> 3 2)", &mut env).unwrap(), Value::Boolean(true));

    // Test variable binding
    eval_str("(setq x 42)", &mut env).unwrap();
    assert_eq!(eval_str("x", &mut env).unwrap(), Value::Number(42));

    // Test function definition and application
    eval_str("(setq add (fn [a b] (+ a b)))", &mut env).unwrap();
    assert_eq!(eval_str("(add 2 3)", &mut env).unwrap(), Value::Number(5));

    // Test nested expressions
    assert_eq!(
        eval_str("(+ (* 2 3) (- 10 5))", &mut env).unwrap(),
        Value::Number(11)
    );
}

#[test]
fn integration_tests_test_data_structures() {
    let mut env = standard_env();

    // Test list
    let result = eval_str("(list 1 2 3)", &mut env).unwrap();
    match result {
        Value::List(items) => {
            assert_eq!(items.len(), 3);
            assert_eq!(items[0], Value::Number(1));
            assert_eq!(items[1], Value::Number(2));
            assert_eq!(items[2], Value::Number(3));
        }
        _ => panic!("Expected a list"),
    }

    // Test vector
    let result = eval_str("[1 2 3]", &mut env).unwrap();
    match result {
        Value::Vector(items) => {
            assert_eq!(items.len(), 3);
            assert_eq!(items[0], Value::Number(1));
            assert_eq!(items[1], Value::Number(2));
            assert_eq!(items[2], Value::Number(3));
        }
        _ => panic!("Expected a vector"),
    }

    // Test map
    let result = eval_str("{:a 1 :b 2}", &mut env).unwrap();
    match result {
        Value::MapVal(map) => {
            assert_eq!(map.len(), 2);
            assert_eq!(
                map.get(&Value::Keyword("a".to_string())),
                Some(&Value::Number(1))
            );
            assert_eq!(
                map.get(&Value::Keyword("b".to_string())),
                Some(&Value::Number(2))
            );
        }
        _ => panic!("Expected a map"),
    }

    // Test set
    let result = eval_str("#{1 2 3}", &mut env).unwrap();
    match result {
        Value::SetVal(set) => {
            assert_eq!(set.len(), 3);
            assert!(set.contains(&Value::Number(1)));
            assert!(set.contains(&Value::Number(2)));
            assert!(set.contains(&Value::Number(3)));
        }
        _ => panic!("Expected a set"),
    }
}
