use citrine::eval_str;
use citrine::parse;
use citrine::read_str;
use citrine::render;
use citrine::standard_env;
use citrine::tokenize;
use citrine::EvalError;
use citrine::TokenKind;
use citrine::Value;

fn concat_texts(input: &str) -> String {
    let mut out = String::new();
    for t in tokenize(input) {
        out.push_str(&t.text);
    }
    out
}

#[test]
fn test_lexer_coverage_rebuilds_input() {
    let inputs = [
        "",
        "(+ 1 2)",
        "  ; a comment\n(list 1 2)  ",
        "{:a 1 :b 2} #{1 2} '(x) `(~y ~@z)",
        "\"unterminated",
        "(1 2",
        ") stray",
        "\\newline \\u0041 0x1F 0b101 3.14 1e9 1/2 42N",
        "@ unexpected &",
    ];
    for input in inputs {
        assert_eq!(concat_texts(input), input);
    }
}

#[test]
fn test_cst_losslessness_rebuilds_input() {
    let inputs = [
        "",
        "(+ 1 2)",
        "  ; a comment\n(list 1 2)  ",
        "{:a 1 :b 2} #{1 2} '(x) `(~y ~@z)",
        "\"unterminated",
        "(1 2",
        ") stray",
        "^:meta (f) #_ 1 2",
        "{:odd}",
    ];
    for input in inputs {
        assert_eq!(parse(input).text(), input);
    }
}

#[test]
fn test_lexer_scenario_seven_tokens() {
    let tokens = tokenize("(+ 1 2)");
    let kinds: Vec<TokenKind> = tokens
        .iter()
        .map(|t| t.kind)
        .filter(|k| *k != TokenKind::Whitespace)
        .collect();
    assert_eq!(
        kinds,
        vec![
            TokenKind::LeftParen,
            TokenKind::Symbol,
            TokenKind::Number,
            TokenKind::Number,
            TokenKind::RightParen,
            TokenKind::Eof,
        ]
    );
}

#[test]
fn test_read_eval_round_trip_literals() {
    let literals = [
        Value::Nil,
        Value::Boolean(true),
        Value::Boolean(false),
        Value::Number(0),
        Value::Number(42),
        Value::Number(-7),
        Value::String("hello".to_string()),
        Value::Keyword("kw".to_string()),
    ];
    for v in literals {
        let printed = render(&v);
        let mut env = standard_env();
        let back = eval_str(&printed, &mut env).unwrap();
        assert_eq!(back, v);
    }
}

#[test]
fn test_sum_identity() {
    let mut env = standard_env();
    assert_eq!(eval_str("(+)", &mut env).unwrap(), Value::Number(0));
}

#[test]
fn test_product_identity() {
    let mut env = standard_env();
    assert_eq!(eval_str("(*)", &mut env).unwrap(), Value::Number(1));
}

#[test]
fn test_addition_commutes() {
    let mut env = standard_env();
    let ab = eval_str("(+ 17 25)", &mut env).unwrap();
    let ba = eval_str("(+ 25 17)", &mut env).unwrap();
    assert_eq!(ab, ba);
    assert_eq!(ab, Value::Number(42));
}

#[test]
fn test_lexical_scoping_sees_later_binding() {
    let mut env = standard_env();
    eval_str("(setq x 1)", &mut env).unwrap();
    eval_str("(setq f (fn [] x))", &mut env).unwrap();
    eval_str("(setq x 2)", &mut env).unwrap();
    assert_eq!(eval_str("(f)", &mut env).unwrap(), Value::Number(2));
}

#[test]
fn test_eval_sum_of_three() {
    let mut env = standard_env();
    assert_eq!(eval_str("(+ 1 2 3)", &mut env).unwrap(), Value::Number(6));
}

#[test]
fn test_eval_division_fold() {
    let mut env = standard_env();
    assert_eq!(eval_str("(/ 12 2 3)", &mut env).unwrap(), Value::Number(2));
}

#[test]
fn test_eval_closure_application() {
    let mut env = standard_env();
    eval_str("(setq add (fn [a b] (+ a b)))", &mut env).unwrap();
    assert_eq!(eval_str("(add 2 3)", &mut env).unwrap(), Value::Number(5));
}

#[test]
fn test_read_quasiquote_canonical_form() {
    let value = read_str("`(1 2 ~x)").unwrap();
    assert_eq!(
        value,
        Value::List(vec![
            Value::Symbol("quasiquote".to_string()),
            Value::List(vec![
                Value::Number(1),
                Value::Number(2),
                Value::List(vec![
                    Value::Symbol("unquote".to_string()),
                    Value::Symbol("x".to_string())
                ]),
            ]),
        ])
    );
}

#[test]
fn test_eval_map_of_two_entries() {
    let mut env = standard_env();
    let result = eval_str("{:a 1 :b 2}", &mut env).unwrap();
    match result {
        Value::MapVal(map) => {
            assert_eq!(map.len(), 2);
            assert_eq!(
                map.get(&Value::Keyword("a".to_string())),
                Some(&Value::Number(1))
            );
            assert_eq!(
                map.get(&Value::Keyword("b".to_string())),
                Some(&Value::Number(2))
            );
        }
        _ => panic!("Expected a map"),
    }
}

#[test]
fn test_eval_not_truth_table() {
    let mut env = standard_env();
    assert_eq!(eval_str("(not false)", &mut env).unwrap(), Value::Boolean(true));
    assert_eq!(eval_str("(not nil)", &mut env).unwrap(), Value::Boolean(true));
    assert_eq!(eval_str("(not 0)", &mut env).unwrap(), Value::Boolean(false));
}

#[test]
fn test_error_unbound_symbol() {
    let mut env = standard_env();
    let err = eval_str("nosuch", &mut env).unwrap_err();
    assert!(matches!(err, EvalError::UnboundSymbol(ref s) if s == "nosuch"));
}

#[test]
fn test_error_not_callable() {
    let mut env = standard_env();
    let err = eval_str("(1 2)", &mut env).unwrap_err();
    assert!(matches!(err, EvalError::NotCallable(_)));
}

#[test]
fn test_error_arity_mismatch() {
    let mut env = standard_env();
    let err = eval_str("(not)", &mut env).unwrap_err();
    assert!(matches!(err, EvalError::ArityMismatch { expected: 1, got: 0 }));
}

#[test]
fn test_error_type_error() {
    let mut env = standard_env();
    let err = eval_str("(+ 1 :a)", &mut env).unwrap_err();
    match err {
        EvalError::TypeError { expected, got } => {
            assert_eq!(expected, "number");
            assert_eq!(got, ":a");
        }
        other => panic!("expected a type error, got {:?}", other),
    }
}

#[test]
fn test_error_syntax_error_odd_map() {
    let err = read_str("{:a}").unwrap_err();
    assert!(matches!(err, EvalError::SyntaxError(_)));
}

#[test]
fn test_error_division_by_zero() {
    let mut env = standard_env();
    let err = eval_str("(/ 1 0)", &mut env).unwrap_err();
    assert!(matches!(err, EvalError::Other(ref m) if m == "Division by zero"));
}

#[test]
fn test_error_macro_application() {
    let mut env = standard_env();
    eval_str("(setq m (macro [x] x))", &mut env).unwrap();
    let err = eval_str("(m 1)", &mut env).unwrap_err();
    assert!(matches!(err, EvalError::Other(ref m) if m == "macro application not implemented"));
}

#[test]
fn test_error_unterminated_string() {
    let err = read_str("\"oops").unwrap_err();
    assert!(matches!(err, EvalError::SyntaxError(_)));
}

#[test]
fn test_error_unclosed_list() {
    let tree = parse("(1 2");
    assert_eq!(tree.text(), "(1 2");
    let err = read_str("(1 2").unwrap_err();
    assert!(matches!(err, EvalError::SyntaxError(_)));
}

#[test]
fn test_error_stray_closer() {
    let tree = parse(") after");
    assert_eq!(tree.text(), ") after");
    let err = read_str(")").unwrap_err();
    assert!(matches!(err, EvalError::SyntaxError(_)));
}

#[test]
fn test_read_radix_and_suffix_numbers() {
    assert_eq!(read_str("0x1F").unwrap(), Value::Number(31));
    assert_eq!(read_str("0b101").unwrap(), Value::Number(5));
    assert_eq!(read_str("-42").unwrap(), Value::Number(-42));
    assert_eq!(read_str("42N").unwrap(), Value::Number(42));
    assert_eq!(read_str("7L").unwrap(), Value::Number(7));
}

#[test]
fn test_read_character_literals() {
    assert_eq!(read_str("\\a").unwrap(), Value::String("a".to_string()));
    assert_eq!(read_str("\\newline").unwrap(), Value::String("\n".to_string()));
    assert_eq!(read_str("\\u0041").unwrap(), Value::String("A".to_string()));
    assert_eq!(read_str("\\space").unwrap(), Value::String(" ".to_string()));
}

#[test]
fn test_read_string_escapes() {
    assert_eq!(
        read_str("\"a\\nb\\t\\\"c\\\"\"").unwrap(),
        Value::String("a\nb\t\"c\"".to_string())
    );
}

#[test]
fn test_read_skips_trivia_and_discards() {
    assert_eq!(read_str("; note\n41").unwrap(), Value::Number(41));
    assert_eq!(read_str("#_ 1 2").unwrap(), Value::Number(2));
}

#[test]
fn test_read_metadata_drops_decoration() {
    assert_eq!(read_str("^:private foo").unwrap(), Value::Symbol("foo".to_string()));
}

#[test]
fn test_division_truncates_toward_zero() {
    let mut env = standard_env();
    assert_eq!(eval_str("(/ 7 2)", &mut env).unwrap(), Value::Number(3));
    assert_eq!(eval_str("(/ -7 2)", &mut env).unwrap(), Value::Number(-3));
    assert_eq!(eval_str("(/ 5)", &mut env).unwrap(), Value::Number(0));
    assert_eq!(eval_str("(/ 1)", &mut env).unwrap(), Value::Number(1));
}

#[test]
fn test_first_and_rest() {
    let mut env = standard_env();
    assert_eq!(eval_str("(first (list 1 2 3))", &mut env).unwrap(), Value::Number(1));
    assert_eq!(eval_str("(first (list))", &mut env).unwrap(), Value::Nil);
    assert_eq!(
        eval_str("(rest (list 1 2 3))", &mut env).unwrap(),
        Value::List(vec![Value::Number(2), Value::Number(3)])
    );
    assert_eq!(eval_str("(rest [7])", &mut env).unwrap(), Value::Vector(vec![]));
}

#[test]
fn test_render_forms() {
    assert_eq!(render(&Value::Number(-5)), "-5");
    assert_eq!(render(&Value::Nil), "nil");
    assert_eq!(render(&Value::String("hi".to_string())), "\"hi\"");
    assert_eq!(render(&Value::Keyword("k".to_string())), ":k");
    let lst = Value::List(vec![Value::Number(1), Value::Number(2)]);
    assert_eq!(render(&lst), "(1 2)");
    let mut env = standard_env();
    let m = eval_str("{:a 1}", &mut env).unwrap();
    assert_eq!(render(&m), "{:a 1}");
    let s = eval_str("#{3}", &mut env).unwrap();
    assert_eq!(render(&s), "#{3}");
    let f = eval_str("(fn [] 1)", &mut env).unwrap();
    assert_eq!(render(&f), "#<function>");
}

#[test]
fn test_set_coalesces_duplicates() {
    let value = read_str("#{1 2 1}").unwrap();
    if let Value::SetVal(set) = value {
        assert_eq!(set.len(), 2);
    } else {
        panic!("Expected a set");
    }
}

#[test]
fn test_map_later_key_wins() {
    let value = read_str("{:a 1 :a 2}").unwrap();
    if let Value::MapVal(map) = value {
        assert_eq!(map.len(), 1);
        assert_eq!(
            map.get(&Value::Keyword("a".to_string())),
            Some(&Value::Number(2))
        );
    } else {
        panic!("Expected a map");
    }
}

#[test]
fn test_structural_equality_ignores_collection_order() {
    let mut env = standard_env();
    assert_eq!(
        eval_str("(= {:a 1 :b 2} {:b 2 :a 1})", &mut env).unwrap(),
        Value::Boolean(true)
    );
    assert_eq!(
        eval_str("(= #{1 2} #{2 1})", &mut env).unwrap(),
        Value::Boolean(true)
    );
    assert_eq!(
        eval_str("(= (fn [] 1) (fn [] 1))", &mut env).unwrap(),
        Value::Boolean(false)
    );
}

#[test]
fn test_empty_list_evaluates_to_itself() {
    let mut env = standard_env();
    assert_eq!(eval_str("()", &mut env).unwrap(), Value::List(vec![]));
}

#[test]
fn test_wrapping_addition() {
    let mut env = standard_env();
    assert_eq!(
        eval_str("(+ 9223372036854775807 1)", &mut env).unwrap(),
        Value::Number(i64::MIN)
    );
}

#[test]
fn test_quote_returns_operand_unevaluated() {
    let mut env = standard_env();
    assert_eq!(
        eval_str("(quote x)", &mut env).unwrap(),
        Value::Symbol("x".to_string())
    );
    assert_eq!(
        eval_str("(quote (+ 1 2))", &mut env).unwrap(),
        Value::List(vec![
            Value::Symbol("+".to_string()),
            Value::Number(1),
            Value::Number(2),
        ])
    );
}

#[test]
fn test_quote_arity_error() {
    let mut env = standard_env();
    assert!(matches!(
        eval_str("(quote a b)", &mut env),
        Err(EvalError::ArityMismatch { .. })
    ));
}

#[test]
fn test_radix_numbers_need_digits() {
    let toks = tokenize("0x");
    assert_eq!(toks[0].kind, TokenKind::Error);
    assert_eq!(toks[0].text, "0x");
    let toks = tokenize("0xff ");
    assert_eq!(toks[0].kind, TokenKind::Number);
    assert_eq!(toks[0].text, "0xff");
    let toks = tokenize("0b");
    assert_eq!(toks[0].kind, TokenKind::Error);
    let toks = tokenize("0b101 ");
    assert_eq!(toks[0].kind, TokenKind::Number);
    assert_eq!(toks[0].text, "0b101");
}

#[test]
fn test_character_names_take_longest_reading() {
    let toks = tokenize("\\newline");
    assert_eq!(toks[0].kind, TokenKind::Character);
    assert_eq!(toks[0].text, "\\newline");
    let toks = tokenize("\\n");
    assert_eq!(toks[0].kind, TokenKind::Character);
    assert_eq!(toks[0].text, "\\n");
    let toks = tokenize("\\u00e9 ");
    assert_eq!(toks[0].kind, TokenKind::Character);
    assert_eq!(toks[0].text, "\\u00e9");
    let toks = tokenize("\\u12");
    assert_eq!(toks[0].kind, TokenKind::Error);
    assert_eq!(toks[0].text, "\\u12");
}
