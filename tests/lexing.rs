use exprlang::lexer::{tokenize, LexErr, Lexer, WithSrcErr};
use exprlang::token::Token;

#[test]
fn int_literal_with_underscores_keeps_value() {
    let toks = tokenize("1_000_000").unwrap();
    assert_eq!(toks.len(), 1);
    assert_eq!(toks[0].0, 0);
    assert!(matches!(toks[0].1, Token::IntLiteral(1000000)));
    assert_eq!(toks[0].1.text(), "1000000");
}

#[test]
fn int_literal_renders_its_digits() {
    let toks = tokenize("42").unwrap();
    assert_eq!(toks[0].1.text(), "42");
    let toks = tokenize("2147483647").unwrap();
    assert!(matches!(toks[0].1, Token::IntLiteral(2147483647)));
}

#[test]
fn int_literal_out_of_range_is_an_error() {
    assert_eq!(tokenize("  2147483648").unwrap_err(), LexErr::IntOutOfRange(2));
}

#[test]
fn unterminated_string_reports_its_opening_offset() {
    assert_eq!(tokenize("\"abc").unwrap_err(), LexErr::UnterminatedString(0));
}

#[test]
fn unknown_character_is_reported() {
    assert_eq!(tokenize("@").unwrap_err(), LexErr::UnknownToken(0, None));
    assert_eq!(tokenize("a = 1").unwrap_err(), LexErr::UnknownToken(2, None));
}

#[test]
fn lexer_stops_after_an_error() {
    let mut lexer = Lexer::new("@ 1");
    assert!(matches!(lexer.next(), Some(Err(LexErr::UnknownToken(0, None)))));
    assert!(lexer.next().is_none());
}

#[test]
fn compound_operators_take_the_equals_sign() {
    let toks = tokenize("+= - *= / != !").unwrap();
    assert_eq!(toks.len(), 6);
    assert!(matches!(toks[0].1, Token::AddEq));
    assert!(matches!(toks[1].1, Token::Sub));
    assert!(matches!(toks[2].1, Token::MulEq));
    assert!(matches!(toks[3].1, Token::Div));
    assert!(matches!(toks[4].1, Token::BangEq));
    assert!(matches!(toks[5].1, Token::Bang));
    let offsets: Vec<usize> = toks.iter().map(|t| t.0).collect();
    assert_eq!(offsets, vec![0, 3, 5, 8, 10, 13]);
}

#[test]
fn string_literal_excludes_its_quotes() {
    let toks = tokenize("\"hi there\" x").unwrap();
    assert_eq!(toks.len(), 2);
    match &toks[0].1 {
        Token::StrLiteral(s) => assert_eq!(s, "hi there"),
        other => panic!("unexpected {:?}", other),
    }
    assert_eq!(toks[1].0, 11);
}

#[test]
fn identifiers_take_letters_digits_and_underscores() {
    let toks = tokenize("foo_1 (bar)").unwrap();
    assert_eq!(toks.len(), 4);
    match &toks[0].1 {
        Token::Ident(s) => assert_eq!(s, "foo_1"),
        other => panic!("unexpected {:?}", other),
    }
    assert!(matches!(toks[1].1, Token::LParen));
    assert_eq!(toks[2].0, 7);
    assert!(matches!(toks[3].1, Token::RParen));
}

#[test]
fn offsets_count_bytes() {
    let toks = tokenize("é x").unwrap();
    assert_eq!(toks.len(), 2);
    assert_eq!(toks[0].0, 0);
    assert_eq!(toks[1].0, 3);
}

#[test]
fn spans_partition_the_source() {
    let src = "  ab  (12)+ \"s\" ";
    let toks = tokenize(src).unwrap();
    let offsets: Vec<usize> = toks.iter().map(|t| t.0).collect();
    assert_eq!(offsets, vec![2, 6, 7, 9, 10, 12]);
    let mut rebuilt = String::new();
    let mut last = 0;
    for (i, (at, _)) in toks.iter().enumerate() {
        rebuilt.push_str(&" ".repeat(*at - last));
        let end = if i + 1 < toks.len() { src[*at..toks[i + 1].0].trim_end().len() + at } else { src.trim_end().len() };
        rebuilt.push_str(&src[*at..end]);
        last = end;
    }
    rebuilt.push_str(&" ".repeat(src.len() - last));
    assert_eq!(rebuilt, src);
}

#[test]
fn empty_and_blank_sources_have_no_tokens() {
    assert!(tokenize("").unwrap().is_empty());
    assert!(tokenize("    ").unwrap().is_empty());
}

#[test]
fn token_text_is_canonical() {
    assert_eq!(Token::Spaces(3).text(), "   ");
    assert_eq!(Token::If.text(), "if");
    assert_eq!(Token::Else.text(), "else");
    assert_eq!(Token::Mut.text(), "mut");
    assert_eq!(Token::Walrus.text(), ":=");
    assert_eq!(Token::Newline.text(), "\\n");
    assert_eq!(Token::IntLiteral(-12).text(), "-12");
    assert_eq!(Token::IntLiteral(i32::MIN).text(), "-2147483648");
    assert_eq!(Token::Return.src_len(), 6);
}

#[test]
fn errors_carry_their_offset() {
    let err = tokenize("1 + \"open").unwrap_err();
    assert_eq!(err.offset(), 4);
    let with_src = WithSrcErr::new("x $", LexErr::UnknownToken(2, None));
    assert_eq!(with_src.offset(), 2);
    assert_eq!(with_src.src, "x $");
}

#[test]
fn escaped_quote_does_not_close_a_string() {
    let src = "\"a\\\"b\"";
    assert_eq!(src.len(), 6);
    let toks = tokenize(src).unwrap();
    assert_eq!(toks.len(), 1);
    assert_eq!(toks[0].0, 0);
    match &toks[0].1 {
        Token::StrLiteral(s) => assert_eq!(s, &src[1..5]),
        other => panic!("unexpected {:?}", other),
    }
}

#[test]
fn escaped_backslash_lets_the_quote_close() {
    let toks = tokenize("\"a\\\\\" x").unwrap();
    assert_eq!(toks.len(), 2);
    match &toks[0].1 {
        Token::StrLiteral(s) => assert_eq!(s, "a\\\\"),
        other => panic!("unexpected {:?}", other),
    }
    assert_eq!(toks[1].0, 6);
    assert_eq!(tokenize("\"abc\\\"").unwrap_err(), LexErr::UnterminatedString(0));
}

#[test]
fn lexer_yields_one_literal_then_ends() {
    let mut lexer = Lexer::new("0_42");
    let first = lexer.next().unwrap().unwrap();
    assert_eq!(first.0, 0);
    assert_eq!(first.1.text(), "42");
    assert!(lexer.next().is_none());
}
