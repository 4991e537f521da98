use airl::lexer::Lexer;
use airl::token::TokenKind;

fn lex(input: &str) -> Vec<TokenKind> {
    let mut lexer = Lexer::new(input);
    let tokens = lexer.lex_all().unwrap();
    tokens.into_iter().map(|t| t.kind).filter(|k| *k != TokenKind::Eof).collect()
}

fn float_value(k: &TokenKind) -> f64 {
    match k {
        TokenKind::Float(text) => text.parse::<f64>().unwrap(),
        other => panic!("expected a float token, got {:?}", other),
    }
}

#[test]
fn lex_integer_decimal() {
    assert_eq!(lex("42"), vec![TokenKind::Integer(42)]);
}

#[test]
fn lex_integer_hex() {
    assert_eq!(lex("0xFF"), vec![TokenKind::Integer(255)]);
}

#[test]
fn lex_integer_binary() {
    assert_eq!(lex("0b1010"), vec![TokenKind::Integer(10)]);
}

#[test]
fn lex_float() {
    let toks = lex("3.14");
    assert_eq!(toks.len(), 1);
    assert_eq!(float_value(&toks[0]), 3.14);
}

#[test]
fn lex_float_exponent() {
    let toks = lex("1e-7");
    assert_eq!(toks.len(), 1);
    assert_eq!(float_value(&toks[0]), 1e-7);
}

#[test]
fn lex_string() {
    assert_eq!(lex(r#""hello""#), vec![TokenKind::Str("hello".into())]);
}

#[test]
fn lex_string_escapes() {
    assert_eq!(lex(r#""line\n""#), vec![TokenKind::Str("line\n".into())]);
}

#[test]
fn lex_symbol() {
    assert_eq!(lex("matrix-multiply"), vec![TokenKind::Symbol("matrix-multiply".into())]);
}

#[test]
fn lex_symbol_with_dots() {
    assert_eq!(lex("tensor.contract"), vec![TokenKind::Symbol("tensor.contract".into())]);
}

#[test]
fn lex_keyword() {
    assert_eq!(lex(":sig"), vec![TokenKind::Keyword("sig".into())]);
}

#[test]
fn lex_booleans() {
    assert_eq!(lex("true false"), vec![TokenKind::Bool(true), TokenKind::Bool(false)]);
}

#[test]
fn lex_nil() {
    assert_eq!(lex("nil"), vec![TokenKind::Nil]);
}

#[test]
fn lex_parens_and_brackets() {
    assert_eq!(lex("([])"), vec![
        TokenKind::LParen, TokenKind::LBracket,
        TokenKind::RBracket, TokenKind::RParen,
    ]);
}

#[test]
fn lex_arrow() {
    assert_eq!(lex("->"), vec![TokenKind::Arrow]);
}

#[test]
fn lex_line_comment_skipped() {
    assert_eq!(lex("; this is a comment\n42"), vec![TokenKind::Integer(42)]);
}

#[test]
fn lex_block_comment_skipped() {
    assert_eq!(lex("#| block |# 42"), vec![TokenKind::Integer(42)]);
}

#[test]
fn lex_nested_block_comment() {
    assert_eq!(lex("#| outer #| inner |# still comment |# 42"), vec![TokenKind::Integer(42)]);
}

#[test]
fn lex_full_expression() {
    let tokens = lex("(+ 1 2)");
    assert_eq!(tokens, vec![
        TokenKind::LParen,
        TokenKind::Symbol("+".into()),
        TokenKind::Integer(1),
        TokenKind::Integer(2),
        TokenKind::RParen,
    ]);
}

#[test]
fn lex_defn_snippet() {
    let tokens = lex(r#"(defn safe-divide :sig [(a : i32) -> i32] :body (/ a 1))"#);
    assert!(tokens.len() > 5);
    assert_eq!(tokens[0], TokenKind::LParen);
    assert_eq!(tokens[1], TokenKind::Symbol("defn".into()));
    assert_eq!(tokens[2], TokenKind::Symbol("safe-divide".into()));
}

#[test]
fn lex_agent_ref() {
    assert_eq!(lex("agent:orchestrator"), vec![TokenKind::Symbol("agent:orchestrator".into())]);
}

#[test]
fn lex_error_unterminated_string() {
    let mut lexer = Lexer::new(r#""hello"#);
    assert!(lexer.lex_all().is_err());
}

#[test]
fn lex_utf8_multibyte_in_string() {
    let input = "\"\u{00E9}\"";
    assert_eq!(lex(input), vec![TokenKind::Str("\u{00E9}".into())]);
}

#[test]
fn lex_utf8_three_byte_in_string() {
    let input = "\"\u{4E2D}\"";
    assert_eq!(lex(input), vec![TokenKind::Str("\u{4E2D}".into())]);
}

#[test]
fn lex_utf8_four_byte_in_string() {
    let input = "\"\u{1F600}\"";
    assert_eq!(lex(input), vec![TokenKind::Str("\u{1F600}".into())]);
}

#[test]
fn lex_invalid_utf8_byte_in_string_is_error() {
    let raw: Vec<u8> = vec![b'"', 0xFF, b'"'];
    let mut lexer = Lexer::from_bytes(&raw);
    assert!(lexer.lex_all().is_err());
}

#[test]
fn lex_hex_literal_safety() {
    assert_eq!(lex("0x0"), vec![TokenKind::Integer(0)]);
    assert_eq!(lex("0xDEADBEEF"), vec![TokenKind::Integer(0xDEAD_BEEF)]);
}

#[test]
fn lex_binary_literal_safety() {
    assert_eq!(lex("0b0"), vec![TokenKind::Integer(0)]);
    assert_eq!(lex("0b11111111"), vec![TokenKind::Integer(255)]);
}

#[test]
fn lex_error_unexpected_char() {
    let raw: Vec<u8> = vec![0x01];
    let mut lexer = Lexer::from_bytes(&raw);
    assert!(lexer.lex_all().is_err());
}

#[test]
fn lex_float_suffix_is_dropped_from_text() {
    assert_eq!(lex("2.5f32"), vec![TokenKind::Float("2.5".into())]);
}

#[test]
fn lex_spans_track_lines() {
    let mut lexer = Lexer::new("a\n  b");
    let toks = lexer.lex_all().unwrap();
    assert_eq!(toks[1].span.line, 2);
    assert_eq!(toks[1].span.col, 2);
    assert_eq!(toks[1].span.start, 4);
    assert_eq!(toks[1].span.end, 5);
}
