use citrine::eval_str;
use citrine::parse;
use citrine::standard_env;
use citrine::tokenize;
use citrine::Lexer;
use citrine::TokenKind;
use citrine::Value;

#[test]
fn mod_test_lexer_simple_tokens() {
    let input = "()[]{}";
    let mut lexer = Lexer::new(input);

    assert_eq!(lexer.next_token().kind, TokenKind::LeftParen);
    assert_eq!(lexer.next_token().kind, TokenKind::RightParen);
    assert_eq!(lexer.next_token().kind, TokenKind::LeftBracket);
    assert_eq!(lexer.next_token().kind, TokenKind::RightBracket);
    assert_eq!(lexer.next_token().kind, TokenKind::LeftBrace);
    assert_eq!(lexer.next_token().kind, TokenKind::RightBrace);
    assert_eq!(lexer.next_token().kind, TokenKind::Eof);
}

#[test]
fn mod_test_lexer_reader_macros() {
    let input = "'`~^#,~@";
    let mut lexer = Lexer::new(input);

    assert_eq!(lexer.next_token().kind, TokenKind::Quote);
    assert_eq!(lexer.next_token().kind, TokenKind::Backtick);
    assert_eq!(lexer.next_token().kind, TokenKind::Tilde);
    assert_eq!(lexer.next_token().kind, TokenKind::Caret);
    assert_eq!(lexer.next_token().kind, TokenKind::Hash);
    assert_eq!(lexer.next_token().kind, TokenKind::Comma);
    assert_eq!(lexer.next_token().kind, TokenKind::TildeAt);
    assert_eq!(lexer.next_token().kind, TokenKind::Eof);
}

#[test]
fn mod_test_lexer_string() {
    let input = r#""hello world" "with \"escape\"" "unterminated"#;
    let mut lexer = Lexer::new(input);

    assert_eq!(lexer.next_token().kind, TokenKind::String);
    assert_eq!(lexer.next_token().kind, TokenKind::Whitespace);
    assert_eq!(lexer.next_token().kind, TokenKind::String);
    assert_eq!(lexer.next_token().kind, TokenKind::Whitespace);
    assert_eq!(lexer.next_token().kind, TokenKind::Error); // unterminated string
    assert_eq!(lexer.next_token().kind, TokenKind::Eof);
}

#[test]
fn mod_test_lexer_keyword() {
    let input = ":keyword :with-dash :123";
    let mut lexer = Lexer::new(input);

    assert_eq!(lexer.next_token().kind, TokenKind::Keyword);
    assert_eq!(lexer.next_token().kind, TokenKind::Whitespace);
    assert_eq!(lexer.next_token().kind, TokenKind::Keyword);
    assert_eq!(lexer.next_token().kind, TokenKind::Whitespace);
    assert_eq!(lexer.next_token().kind, TokenKind::Keyword);
    assert_eq!(lexer.next_token().kind, TokenKind::Eof);
}

#[test]
fn mod_test_lexer_symbol() {
    let input = "symbol with-dash symbol123 *special* +";
    let mut lexer = Lexer::new(input);

    assert_eq!(lexer.next_token().kind, TokenKind::Symbol);
    assert_eq!(lexer.next_token().kind, TokenKind::Whitespace);
    assert_eq!(lexer.next_token().kind, TokenKind::Symbol);
    assert_eq!(lexer.next_token().kind, TokenKind::Whitespace);
    assert_eq!(lexer.next_token().kind, TokenKind::Symbol);
    assert_eq!(lexer.next_token().kind, TokenKind::Whitespace);
    assert_eq!(lexer.next_token().kind, TokenKind::Symbol);
    assert_eq!(lexer.next_token().kind, TokenKind::Whitespace);
    assert_eq!(lexer.next_token().kind, TokenKind::Symbol);
    assert_eq!(lexer.next_token().kind, TokenKind::Eof);
}

#[test]
fn mod_test_lexer_comment() {
    let input = "; This is a comment\nsymbol";
    let mut lexer = Lexer::new(input);

    assert_eq!(lexer.next_token().kind, TokenKind::Comment);
    assert_eq!(lexer.next_token().kind, TokenKind::Whitespace);
    assert_eq!(lexer.next_token().kind, TokenKind::Symbol);
    assert_eq!(lexer.next_token().kind, TokenKind::Eof);
}

#[test]
fn mod_test_lexer_complex() {
    let input = "(defn hello [name] (str \"Hello, \" name \"!\"))";
    let mut lexer = Lexer::new(input);

    assert_eq!(lexer.next_token().kind, TokenKind::LeftParen);
    assert_eq!(lexer.next_token().kind, TokenKind::Symbol); // defn
    assert_eq!(lexer.next_token().kind, TokenKind::Whitespace);
    assert_eq!(lexer.next_token().kind, TokenKind::Symbol); // hello
    assert_eq!(lexer.next_token().kind, TokenKind::Whitespace);
    assert_eq!(lexer.next_token().kind, TokenKind::LeftBracket);
    assert_eq!(lexer.next_token().kind, TokenKind::Symbol); // name
    assert_eq!(lexer.next_token().kind, TokenKind::RightBracket);
    assert_eq!(lexer.next_token().kind, TokenKind::Whitespace);
    assert_eq!(lexer.next_token().kind, TokenKind::LeftParen);
    assert_eq!(lexer.next_token().kind, TokenKind::Symbol); // str
    assert_eq!(lexer.next_token().kind, TokenKind::Whitespace);
    assert_eq!(lexer.next_token().kind, TokenKind::String); // "Hello, "
    assert_eq!(lexer.next_token().kind, TokenKind::Whitespace);
    assert_eq!(lexer.next_token().kind, TokenKind::Symbol); // name
    assert_eq!(lexer.next_token().kind, TokenKind::Whitespace);
    assert_eq!(lexer.next_token().kind, TokenKind::String); // "!"
    assert_eq!(lexer.next_token().kind, TokenKind::RightParen);
    assert_eq!(lexer.next_token().kind, TokenKind::RightParen);
    assert_eq!(lexer.next_token().kind, TokenKind::Eof);
}

#[test]
fn mod_test_parse_empty() {
    let expected = "Root@0..0\n  Eof@0..0 \"\"\n";
    assert_eq!(parse("").dump(), expected);
}

#[test]
fn mod_test_parse_list() {
    let expected = "Root@0..7\n  List@0..7\n    LeftParen@0..1 \"(\"\n    SymbolLit@1..2\n      Symbol@1..2 \"+\"\n    WhitespaceToken@2..3 \" \"\n    NumberLit@3..4\n      Number@3..4 \"1\"\n    WhitespaceToken@4..5 \" \"\n    NumberLit@5..6\n      Number@5..6 \"2\"\n    RightParen@6..7 \")\"\n  Eof@7..7 \"\"\n";
    assert_eq!(parse("(+ 1 2)").dump(), expected);
}

#[test]
fn mod_test_parse_vector() {
    let expected = "Root@0..7\n  Vector@0..7\n    LeftBracket@0..1 \"[\"\n    NumberLit@1..2\n      Number@1..2 \"1\"\n    WhitespaceToken@2..3 \" \"\n    NumberLit@3..4\n      Number@3..4 \"2\"\n    WhitespaceToken@4..5 \" \"\n    NumberLit@5..6\n      Number@5..6 \"3\"\n    RightBracket@6..7 \"]\"\n  Eof@7..7 \"\"\n";
    assert_eq!(parse("[1 2 3]").dump(), expected);
}

#[test]
fn mod_test_parse_map() {
    let expected = "Root@0..11\n  Map@0..11\n    LeftBrace@0..1 \"{\"\n    KeywordLit@1..3\n      Keyword@1..3 \":a\"\n    WhitespaceToken@3..4 \" \"\n    NumberLit@4..5\n      Number@4..5 \"1\"\n    WhitespaceToken@5..6 \" \"\n    KeywordLit@6..8\n      Keyword@6..8 \":b\"\n    WhitespaceToken@8..9 \" \"\n    NumberLit@9..10\n      Number@9..10 \"2\"\n    RightBrace@10..11 \"}\"\n  Eof@11..11 \"\"\n";
    assert_eq!(parse("{:a 1 :b 2}").dump(), expected);
}

#[test]
fn mod_test_parse_quote() {
    let expected = "Root@0..8\n  Quote@0..8\n    QuoteToken@0..1 \"'\"\n    List@1..8\n      LeftParen@1..2 \"(\"\n      NumberLit@2..3\n        Number@2..3 \"1\"\n      WhitespaceToken@3..4 \" \"\n      NumberLit@4..5\n        Number@4..5 \"2\"\n      WhitespaceToken@5..6 \" \"\n      NumberLit@6..7\n        Number@6..7 \"3\"\n      RightParen@7..8 \")\"\n  Eof@8..8 \"\"\n";
    assert_eq!(parse("'(1 2 3)").dump(), expected);
}

#[test]
fn mod_test_parse_backtick() {
    let expected = "Root@0..9\n  Backtick@0..9\n    BacktickToken@0..1 \"`\"\n    List@1..9\n      LeftParen@1..2 \"(\"\n      NumberLit@2..3\n        Number@2..3 \"1\"\n      WhitespaceToken@3..4 \" \"\n      NumberLit@4..5\n        Number@4..5 \"2\"\n      WhitespaceToken@5..6 \" \"\n      Unquote@6..8\n        TildeToken@6..7 \"~\"\n        SymbolLit@7..8\n          Symbol@7..8 \"x\"\n      RightParen@8..9 \")\"\n  Eof@9..9 \"\"\n";
    assert_eq!(parse("`(1 2 ~x)").dump(), expected);
}

#[test]
fn mod_test_parse_meta() {
    let expected = "Root@0..23\n  Meta@0..23\n    CaretToken@0..1 \"^\"\n    KeywordLit@1..9\n      Keyword@1..9 \":private\"\n    WhitespaceToken@9..10 \" \"\n    List@10..23\n      LeftParen@10..11 \"(\"\n      SymbolLit@11..15\n        Symbol@11..15 \"defn\"\n      WhitespaceToken@15..16 \" \"\n      SymbolLit@16..19\n        Symbol@16..19 \"foo\"\n      WhitespaceToken@19..20 \" \"\n      Vector@20..22\n        LeftBracket@20..21 \"[\"\n        RightBracket@21..22 \"]\"\n      RightParen@22..23 \")\"\n  Eof@23..23 \"\"\n";
    assert_eq!(parse("^:private (defn foo [])").dump(), expected);
}

#[test]
fn mod_test_parse_complex() {
    let input = "(defn hello [name] (str \"Hello, \" name \"!\"))";
    let expected = "Root@0..44\n  List@0..44\n    LeftParen@0..1 \"(\"\n    SymbolLit@1..5\n      Symbol@1..5 \"defn\"\n    WhitespaceToken@5..6 \" \"\n    SymbolLit@6..11\n      Symbol@6..11 \"hello\"\n    WhitespaceToken@11..12 \" \"\n    Vector@12..18\n      LeftBracket@12..13 \"[\"\n      SymbolLit@13..17\n        Symbol@13..17 \"name\"\n      RightBracket@17..18 \"]\"\n    WhitespaceToken@18..19 \" \"\n    List@19..43\n      LeftParen@19..20 \"(\"\n      SymbolLit@20..23\n        Symbol@20..23 \"str\"\n      WhitespaceToken@23..24 \" \"\n      StringLit@24..33\n        String@24..33 \"\\\"Hello, \\\"\"\n      WhitespaceToken@33..34 \" \"\n      SymbolLit@34..38\n        Symbol@34..38 \"name\"\n      WhitespaceToken@38..39 \" \"\n      StringLit@39..42\n        String@39..42 \"\\\"!\\\"\"\n      RightParen@42..43 \")\"\n    RightParen@43..44 \")\"\n  Eof@44..44 \"\"\n";
    assert_eq!(parse(input).dump(), expected);
}

#[test]
fn lib_test_tokenize_simple() {
    let tokens = tokenize("(+ 1 2)");
    let kinds: Vec<TokenKind> = tokens.iter().map(|t| t.kind).collect();
    assert_eq!(
        kinds,
        vec![
            TokenKind::LeftParen,
            TokenKind::Symbol,
            TokenKind::Whitespace,
            TokenKind::Number,
            TokenKind::Whitespace,
            TokenKind::Number,
            TokenKind::RightParen,
            TokenKind::Eof,
        ]
    );
    let texts: Vec<&str> = tokens.iter().map(|t| t.text.as_str()).collect();
    assert_eq!(texts, vec!["(", "+", " ", "1", " ", "2", ")", ""]);
    assert_eq!(tokens[0].start, 0);
    assert_eq!(tokens[0].end, 1);
    assert_eq!(tokens[3].start, 3);
    assert_eq!(tokens[3].end, 4);
    assert_eq!(tokens[7].start, 7);
    assert_eq!(tokens[7].end, 7);
}

#[test]
fn lib_test_parse_simple() {
    let expected = "Root@0..7\n  List@0..7\n    LeftParen@0..1 \"(\"\n    SymbolLit@1..2\n      Symbol@1..2 \"+\"\n    WhitespaceToken@2..3 \" \"\n    NumberLit@3..4\n      Number@3..4 \"1\"\n    WhitespaceToken@4..5 \" \"\n    NumberLit@5..6\n      Number@5..6 \"2\"\n    RightParen@6..7 \")\"\n  Eof@7..7 \"\"\n";
    assert_eq!(parse("(+ 1 2)").dump(), expected);
}

#[test]
fn lib_test_parse_nested() {
    let input = "(defn factorial [n] (if (= n 0) 1 (* n (factorial (- n 1)))))";
    let expected = "Root@0..61\n  List@0..61\n    LeftParen@0..1 \"(\"\n    SymbolLit@1..5\n      Symbol@1..5 \"defn\"\n    WhitespaceToken@5..6 \" \"\n    SymbolLit@6..15\n      Symbol@6..15 \"factorial\"\n    WhitespaceToken@15..16 \" \"\n    Vector@16..19\n      LeftBracket@16..17 \"[\"\n      SymbolLit@17..18\n        Symbol@17..18 \"n\"\n      RightBracket@18..19 \"]\"\n    WhitespaceToken@19..20 \" \"\n    List@20..60\n      LeftParen@20..21 \"(\"\n      SymbolLit@21..23\n        Symbol@21..23 \"if\"\n      WhitespaceToken@23..24 \" \"\n      List@24..31\n        LeftParen@24..25 \"(\"\n        SymbolLit@25..26\n          Symbol@25..26 \"=\"\n        WhitespaceToken@26..27 \" \"\n        SymbolLit@27..28\n          Symbol@27..28 \"n\"\n        WhitespaceToken@28..29 \" \"\n        NumberLit@29..30\n          Number@29..30 \"0\"\n        RightParen@30..31 \")\"\n      WhitespaceToken@31..32 \" \"\n      NumberLit@32..33\n        Number@32..33 \"1\"\n      WhitespaceToken@33..34 \" \"\n      List@34..59\n        LeftParen@34..35 \"(\"\n        SymbolLit@35..36\n          Symbol@35..36 \"*\"\n        WhitespaceToken@36..37 \" \"\n        SymbolLit@37..38\n          Symbol@37..38 \"n\"\n        WhitespaceToken@38..39 \" \"\n        List@39..58\n          LeftParen@39..40 \"(\"\n          SymbolLit@40..49\n            Symbol@40..49 \"factorial\"\n          WhitespaceToken@49..50 \" \"\n          List@50..57\n            LeftParen@50..51 \"(\"\n            SymbolLit@51..52\n              Symbol@51..52 \"-\"\n            WhitespaceToken@52..53 \" \"\n            SymbolLit@53..54\n              Symbol@53..54 \"n\"\n            WhitespaceToken@54..55 \" \"\n            NumberLit@55..56\n              Number@55..56 \"1\"\n            RightParen@56..57 \")\"\n          RightParen@57..58 \")\"\n        RightParen@58..59 \")\"\n      RightParen@59..60 \")\"\n    RightParen@60..61 \")\"\n  Eof@61..61 \"\"\n";
    assert_eq!(parse(input).dump(), expected);
}

#[test]
fn lib_test_eval_simple() {
    let mut env = standard_env();

    // Test arithmetic
    assert_eq!(eval_str("(+ 1 2 3)", &mut env).unwrap(), Value::Number(6));
    assert_eq!(eval_str("(- 10 2 3)", &mut env).unwrap(), Value::Number(5));
    assert_eq!(eval_str("(* 2 3 4)", &mut env).unwrap(), Value::Number(24));
    assert_eq!(eval_str("(/ 12 2 3)", &mut env).unwrap(), Value::Number(2));

    // Test comparison
    assert_eq!(eval_str("(= 1 1 1)", &mut env).unwrap(), Value::Boolean(true));
    assert_eq!(eval_str("(= 1 2 1)", &mut env).unwrap(), Value::Boolean(false));
    assert_eq!(eval_str("(< 1 2)", &mut env).unwrap(), Value::Boolean(true));
    assert_eq!(eval_str("(> 3 2)", &mut env).unwrap(), Value::Boolean(true));

    // Test variable binding
    eval_str("(setq x 42)", &mut env).unwrap();
    assert_eq!(eval_str("x", &mut env).unwrap(), Value::Number(42));

    // Test function definition and application
    eval_str("(setq add (fn [a b] (+ a b)))", &mut env).unwrap();
    assert_eq!(eval_str("(add 2 3)", &mut env).unwrap(), Value::Number(5));

    // Test nested expressions
    assert_eq!(
        eval_str("(+ (* 2 3) (- 10 5))", &mut env).unwrap(),
        Value::Number(11)
    );
}

#[test]
fn lib_test_data_structures() {
    let mut env = standard_env();

    // Test list
    let result = eval_str("(list 1 2 3)", &mut env).unwrap();
    match result {
        Value::List(items) => {
            assert_eq!(items.len(), 3);
            assert_eq!(items[0], Value::Number(1));
            assert_eq!(items[1], Value::Number(2));
            assert_eq!(items[2], Value::Number(3));
        }
        _ => panic!("Expected a list"),
    }

    // Test vector
    let result = eval_str("[1 2 3]", &mut env).unwrap();
    match result {
        Value::Vector(items) => {
            assert_eq!(items.len(), 3);
            assert_eq!(items[0], Value::Number(1));
            assert_eq!(items[1], Value::Number(2));
            assert_eq!(items[2], Value::Number(3));
        }
        _ => panic!("Expected a vector"),
    }

    // Test map
    let result = eval_str("{:a 1 :b 2}", &mut env).unwrap();
    match result {
        Value::MapVal(map) => {
            assert_eq!(map.len(), 2);
            assert_eq!(
                map.get(&Value::Keyword("a".to_string())),
                Some(&Value::Number(1))
            );
            assert_eq!(
                map.get(&Value::Keyword("b".to_string())),
                Some(&Value::Number(2))
            );
        }
        _ => panic!("Expected a map"),
    }

    // Test set
    let result = eval_str("#{1 2 3}", &mut env).unwrap();
    match result {
        Value::SetVal(set) => {
            assert_eq!(set.len(), 3);
            assert!(set.contains(&Value::Number(1)));
            assert!(set.contains(&Value::Number(2)));
            assert!(set.contains(&Value::Number(3)));
        }
        _ => panic!("Expected a set"),
    }
}
