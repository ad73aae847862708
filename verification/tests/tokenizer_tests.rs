use bdscript::tokenizer::{tokenize, Token};
use rust_decimal::Decimal;
use std::str::FromStr;

fn token_eq(a: &Token, b: &Token) -> bool {
    if std::mem::discriminant(a) != std::mem::discriminant(b) {
        return false;
    }
    match (a, b) {
        (Token::Str(x), Token::Str(y)) => x == y,
        (Token::Ident(x), Token::Ident(y)) => x == y,
        (Token::Number(x), Token::Number(y)) => x == y,
        _ => true,
    }
}

#[test]
fn token_hello_world() {
    let lex = r#"
            print('Hello,World!')
        "#;
    let tokens = tokenize(lex.as_bytes()).unwrap();
    for token in &tokens {
        println!("{:?}", token);
    }
    assert_eq!(tokens.len(), 11);
    assert!(matches!(tokens[0].0, Token::Line));
    assert!(matches!(tokens[1].0, Token::Tab));
    assert!(matches!(tokens[2].0, Token::Tab));
    assert!(matches!(tokens[3].0, Token::Tab));
    match &tokens[4].0 {
        Token::Ident(n) => assert_eq!(n.as_slice(), b"print"),
        other => panic!("expected identifier, got {:?}", other),
    }
    assert!(matches!(tokens[5].0, Token::LeftParen));
    match &tokens[6].0 {
        Token::Str(s) => assert_eq!(s.as_slice(), b"Hello,World!"),
        other => panic!("expected string, got {:?}", other),
    }
    assert!(matches!(tokens[7].0, Token::RightParen));
    assert!(matches!(tokens[8].0, Token::Line));
    assert!(matches!(tokens[9].0, Token::Tab));
    assert!(matches!(tokens[10].0, Token::Tab));
}

#[test]
fn token_round_trip_single_tokens() {
    let src = "if x>=3.5e2 and y!=0:\n\t'abc'?+q==\"hi\"[1,2.25]\n    w%=3";
    let tokens = tokenize(src.as_bytes()).unwrap();
    assert!(tokens.len() > 15);
    for (tok, span) in &tokens {
        let text = &src.as_bytes()[span.start..span.end];
        let again = tokenize(text).unwrap();
        assert_eq!(again.len(), 1, "span text must hold exactly one token");
        assert!(token_eq(&again[0].0, tok), "re-lexed token differs: {:?}", tok);
        assert_eq!(again[0].1.start, 0);
        assert_eq!(again[0].1.end, span.end - span.start);
    }
}

#[test]
fn number_values_parsed_at_lex_time() {
    let tokens = tokenize(b"12 1.5 1e2 .25").unwrap();
    assert_eq!(tokens.len(), 4);
    match &tokens[0].0 {
        Token::Number(d) => assert_eq!(*d, Decimal::from(12u32)),
        other => panic!("expected number, got {:?}", other),
    }
    match &tokens[1].0 {
        Token::Number(d) => assert_eq!(*d, Decimal::from_str("1.5").unwrap()),
        other => panic!("expected number, got {:?}", other),
    }
    match &tokens[2].0 {
        Token::Number(d) => assert_eq!(*d, Decimal::from(100u32)),
        other => panic!("expected number, got {:?}", other),
    }
    match &tokens[3].0 {
        Token::Number(d) => assert_eq!(*d, Decimal::from_str("0.25").unwrap()),
        other => panic!("expected number, got {:?}", other),
    }
}

#[test]
fn string_payload_quote_handling() {
    // a single-quoted literal drops both quotes; a double-quoted one keeps
    // its opening quote
    let tokens = tokenize(b"'hi' \"hi\"").unwrap();
    assert_eq!(tokens.len(), 2);
    match &tokens[0].0 {
        Token::Str(s) => assert_eq!(s.as_slice(), b"hi"),
        other => panic!("expected string, got {:?}", other),
    }
    match &tokens[1].0 {
        Token::Str(s) => assert_eq!(s.as_slice(), b"\"hi"),
        other => panic!("expected string, got {:?}", other),
    }
}

#[test]
fn longest_match_discipline() {
    let tokens = tokenize(b"==+=++<=!iffy if and&&or||").unwrap();
    let kinds: Vec<&Token> = tokens.iter().map(|p| &p.0).collect();
    assert!(matches!(kinds[0], Token::Equal));
    assert!(matches!(kinds[1], Token::AddAssign));
    assert!(matches!(kinds[2], Token::PlusOne));
    assert!(matches!(kinds[3], Token::LessEqual));
    assert!(matches!(kinds[4], Token::Not));
    match kinds[5] {
        Token::Ident(n) => assert_eq!(n.as_slice(), b"iffy"),
        other => panic!("expected identifier, got {:?}", other),
    }
    assert!(matches!(kinds[6], Token::If));
    assert!(matches!(kinds[7], Token::And));
    assert!(matches!(kinds[8], Token::And));
    assert!(matches!(kinds[9], Token::Or));
    assert!(matches!(kinds[10], Token::Or));
    assert_eq!(kinds.len(), 11);
}

#[test]
fn indentation_units() {
    // four spaces or one tab form a unit; fewer spaces are skipped singly
    let tokens = tokenize(b"    \t1").unwrap();
    assert_eq!(tokens.len(), 3);
    assert!(matches!(tokens[0].0, Token::Tab));
    assert!(matches!(tokens[1].0, Token::Tab));
    assert!(matches!(tokens[2].0, Token::Number(_)));
    let tokens = tokenize(b"   1").unwrap();
    assert_eq!(tokens.len(), 1);
    assert_eq!(tokens[0].1.start, 3);
    assert_eq!(tokens[0].1.end, 4);
}

#[test]
fn comments_and_spaces_discarded() {
    let tokens = tokenize(b"1 # all of this vanishes\n2").unwrap();
    assert_eq!(tokens.len(), 3);
    assert!(matches!(tokens[0].0, Token::Number(_)));
    assert!(matches!(tokens[1].0, Token::Line));
    assert!(matches!(tokens[2].0, Token::Number(_)));
}

#[test]
fn lex_error_unknown_byte() {
    let err = tokenize(b"ok $").unwrap_err();
    assert_eq!(err.pos, 3);
}

#[test]
fn lex_error_unterminated_string() {
    let err = tokenize(b"'abc").unwrap_err();
    assert_eq!(err.pos, 0);
    let err = tokenize(b"x \"abc").unwrap_err();
    assert_eq!(err.pos, 2);
}

#[test]
fn lex_error_number_out_of_range() {
    // 2^96 does not fit the decimal type the lexer parses into
    let err = tokenize(b"79228162514264337593543950336").unwrap_err();
    assert_eq!(err.pos, 0);
}

#[test]
fn spans_cover_matched_text() {
    let src = b"ab>=1.5";
    let tokens = tokenize(src).unwrap();
    assert_eq!(tokens.len(), 3);
    assert_eq!((tokens[0].1.start, tokens[0].1.end), (0, 2));
    assert_eq!((tokens[1].1.start, tokens[1].1.end), (2, 4));
    assert_eq!((tokens[2].1.start, tokens[2].1.end), (4, 7));
}
