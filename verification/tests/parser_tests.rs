use citrine::parse;

#[test]
fn test_parse_empty() {
    let expected = "Root@0..0\n  Eof@0..0 \"\"\n";
    assert_eq!(parse("").dump(), expected);
}

#[test]
fn test_parse_list() {
    let expected = "Root@0..7\n  List@0..7\n    LeftParen@0..1 \"(\"\n    SymbolLit@1..2\n      Symbol@1..2 \"+\"\n    WhitespaceToken@2..3 \" \"\n    NumberLit@3..4\n      Number@3..4 \"1\"\n    WhitespaceToken@4..5 \" \"\n    NumberLit@5..6\n      Number@5..6 \"2\"\n    RightParen@6..7 \")\"\n  Eof@7..7 \"\"\n";
    assert_eq!(parse("(+ 1 2)").dump(), expected);
}

#[test]
fn test_parse_vector() {
    let expected = "Root@0..7\n  Vector@0..7\n    LeftBracket@0..1 \"[\"\n    NumberLit@1..2\n      Number@1..2 \"1\"\n    WhitespaceToken@2..3 \" \"\n    NumberLit@3..4\n      Number@3..4 \"2\"\n    WhitespaceToken@4..5 \" \"\n    NumberLit@5..6\n      Number@5..6 \"3\"\n    RightBracket@6..7 \"]\"\n  Eof@7..7 \"\"\n";
    assert_eq!(parse("[1 2 3]").dump(), expected);
}

#[test]
fn test_parse_map() {
    let expected = "Root@0..11\n  Map@0..11\n    LeftBrace@0..1 \"{\"\n    KeywordLit@1..3\n      Keyword@1..3 \":a\"\n    WhitespaceToken@3..4 \" \"\n    NumberLit@4..5\n      Number@4..5 \"1\"\n    WhitespaceToken@5..6 \" \"\n    KeywordLit@6..8\n      Keyword@6..8 \":b\"\n    WhitespaceToken@8..9 \" \"\n    NumberLit@9..10\n      Number@9..10 \"2\"\n    RightBrace@10..11 \"}\"\n  Eof@11..11 \"\"\n";
    assert_eq!(parse("{:a 1 :b 2}").dump(), expected);
}

#[test]
fn test_parse_quote() {
    let expected = "Root@0..8\n  Quote@0..8\n    QuoteToken@0..1 \"'\"\n    List@1..8\n      LeftParen@1..2 \"(\"\n      NumberLit@2..3\n        Number@2..3 \"1\"\n      WhitespaceToken@3..4 \" \"\n      NumberLit@4..5\n        Number@4..5 \"2\"\n      WhitespaceToken@5..6 \" \"\n      NumberLit@6..7\n        Number@6..7 \"3\"\n      RightParen@7..8 \")\"\n  Eof@8..8 \"\"\n";
    assert_eq!(parse("'(1 2 3)").dump(), expected);
}

#[test]
fn test_parse_backtick() {
    let expected = "Root@0..9\n  Backtick@0..9\n    BacktickToken@0..1 \"`\"\n    List@1..9\n      LeftParen@1..2 \"(\"\n      NumberLit@2..3\n        Number@2..3 \"1\"\n      WhitespaceToken@3..4 \" \"\n      NumberLit@4..5\n        Number@4..5 \"2\"\n      WhitespaceToken@5..6 \" \"\n      Unquote@6..8\n        CommaToken@6..7 \",\"\n        SymbolLit@7..8\n          Symbol@7..8 \"x\"\n      RightParen@8..9 \")\"\n  Eof@9..9 \"\"\n";
    assert_eq!(parse("`(1 2 ,x)").dump(), expected);
}

#[test]
fn test_parse_meta() {
    let expected = "Root@0..23\n  Meta@0..23\n    CaretToken@0..1 \"^\"\n    KeywordLit@1..9\n      Keyword@1..9 \":private\"\n    WhitespaceToken@9..10 \" \"\n    List@10..23\n      LeftParen@10..11 \"(\"\n      SymbolLit@11..15\n        Symbol@11..15 \"defn\"\n      WhitespaceToken@15..16 \" \"\n      SymbolLit@16..19\n        Symbol@16..19 \"foo\"\n      WhitespaceToken@19..20 \" \"\n      Vector@20..22\n        LeftBracket@20..21 \"[\"\n        RightBracket@21..22 \"]\"\n      RightParen@22..23 \")\"\n  Eof@23..23 \"\"\n";
    assert_eq!(parse("^:private (defn foo [])").dump(), expected);
}

#[test]
fn test_parse_complex() {
    let input = "(defn hello [name] (str \"Hello, \" name \"!\"))";
    let expected = "Root@0..44\n  List@0..44\n    LeftParen@0..1 \"(\"\n    SymbolLit@1..5\n      Symbol@1..5 \"defn\"\n    WhitespaceToken@5..6 \" \"\n    SymbolLit@6..11\n      Symbol@6..11 \"hello\"\n    WhitespaceToken@11..12 \" \"\n    Vector@12..18\n      LeftBracket@12..13 \"[\"\n      SymbolLit@13..17\n        Symbol@13..17 \"name\"\n      RightBracket@17..18 \"]\"\n    WhitespaceToken@18..19 \" \"\n    List@19..43\n      LeftParen@19..20 \"(\"\n      SymbolLit@20..23\n        Symbol@20..23 \"str\"\n      WhitespaceToken@23..24 \" \"\n      StringLit@24..33\n        String@24..33 \"\\\"Hello, \\\"\"\n      WhitespaceToken@33..34 \" \"\n      SymbolLit@34..38\n        Symbol@34..38 \"name\"\n      WhitespaceToken@38..39 \" \"\n      StringLit@39..42\n        String@39..42 \"\\\"!\\\"\"\n      RightParen@42..43 \")\"\n    RightParen@43..44 \")\"\n  Eof@44..44 \"\"\n";
    assert_eq!(parse(input).dump(), expected);
}
