use parallelized_programming_language::num::Num;
use parallelized_programming_language::scanner::{LexError, Scanner, Token};

fn num(x: f64) -> Num {
    Num::from_bits(x.to_bits())
}

#[test]
fn test_number_token() {
    let mut s = Scanner::new("123");
    assert_eq!(s.next_token(), Ok(Token::Number(num(123.))));
    assert_eq!(s.next_token(), Ok(Token::Eof));
}

#[test]
fn test_float_token() {
    let mut s = Scanner::new("123.45");
    assert_eq!(s.next_token(), Ok(Token::Number(num(123.45))));
    assert_eq!(s.next_token(), Ok(Token::Eof));
}

#[test]
fn test_identifier_token() {
    let mut s = Scanner::new("foo_bar");
    assert_eq!(s.next_token(), Ok(Token::Identifier("foo_bar".into())));
    assert_eq!(s.next_token(), Ok(Token::Eof));
}

#[test]
fn test_keywords() {
    let mut s = Scanner::new("spawn sync barrier jump jz jnz");
    assert_eq!(s.next_token(), Ok(Token::KeywordSpawn));
    assert_eq!(s.next_token(), Ok(Token::KeywordSync));
    assert_eq!(s.next_token(), Ok(Token::KeywordBarrier));
    assert_eq!(s.next_token(), Ok(Token::KeywordJump));
    assert_eq!(s.next_token(), Ok(Token::KeywordJz));
    assert_eq!(s.next_token(), Ok(Token::KeywordJnz));
    assert_eq!(s.next_token(), Ok(Token::Eof));
}

#[test]
fn test_operators_and_delimiters() {
    let mut s = Scanner::new("+-*/=;()");
    assert_eq!(s.next_token(), Ok(Token::Plus));
    assert_eq!(s.next_token(), Ok(Token::Minus));
    assert_eq!(s.next_token(), Ok(Token::Star));
    assert_eq!(s.next_token(), Ok(Token::Slash));
    assert_eq!(s.next_token(), Ok(Token::Assign));
    assert_eq!(s.next_token(), Ok(Token::Semicolon));
    assert_eq!(s.next_token(), Ok(Token::LParen));
    assert_eq!(s.next_token(), Ok(Token::RParen));
    assert_eq!(s.next_token(), Ok(Token::Eof));
}

#[test]
fn test_whitespace_and_comments() {
    let code = "  42  // comment line\n +7\t";
    let mut s = Scanner::new(code);
    assert_eq!(s.next_token(), Ok(Token::Number(num(42.))));
    assert_eq!(s.next_token(), Ok(Token::Plus));
    assert_eq!(s.next_token(), Ok(Token::Number(num(7.))));
    assert_eq!(s.next_token(), Ok(Token::Eof));
}

#[test]
#[should_panic]
fn test_unexpected_character() {
    let mut s = Scanner::new("@");
    let _ = s.next_token().unwrap();
}

#[test]
fn unexpected_character_is_reported() {
    let mut s = Scanner::new("  @");
    assert_eq!(s.next_token(), Err(LexError::UnexpectedCharacter('@')));
}

#[test]
fn eof_repeats_forever() {
    let mut s = Scanner::new("x");
    assert_eq!(s.next_token(), Ok(Token::Identifier("x".into())));
    for _ in 0..5 {
        assert_eq!(s.next_token(), Ok(Token::Eof));
    }
}

#[test]
fn trailing_dot_is_not_a_fraction() {
    let mut s = Scanner::new("3.");
    assert_eq!(s.next_token(), Ok(Token::Number(num(3.0))));
    assert_eq!(s.next_token(), Err(LexError::UnexpectedCharacter('.')));
}

#[test]
fn comment_then_whitespace_then_comment() {
    let mut s = Scanner::new("// one\n   // two\n\n  5");
    assert_eq!(s.next_token(), Ok(Token::Number(num(5.0))));
    assert_eq!(s.next_token(), Ok(Token::Eof));
}

#[test]
fn single_slash_is_division() {
    let mut s = Scanner::new("8 / 2");
    assert_eq!(s.next_token(), Ok(Token::Number(num(8.0))));
    assert_eq!(s.next_token(), Ok(Token::Slash));
    assert_eq!(s.next_token(), Ok(Token::Number(num(2.0))));
}

#[test]
fn function_syntax_tokens() {
    let mut s = Scanner::new("fn f(a, b) { }");
    assert_eq!(s.next_token(), Ok(Token::KeywordFn));
    assert_eq!(s.next_token(), Ok(Token::Identifier("f".into())));
    assert_eq!(s.next_token(), Ok(Token::LParen));
    assert_eq!(s.next_token(), Ok(Token::Identifier("a".into())));
    assert_eq!(s.next_token(), Ok(Token::Comma));
    assert_eq!(s.next_token(), Ok(Token::Identifier("b".into())));
    assert_eq!(s.next_token(), Ok(Token::RParen));
    assert_eq!(s.next_token(), Ok(Token::LBrace));
    assert_eq!(s.next_token(), Ok(Token::RBrace));
    assert_eq!(s.next_token(), Ok(Token::Eof));
}

#[test]
fn identifier_continues_with_unicode_letters() {
    let mut s = Scanner::new("caf\u{e9}2 x");
    assert_eq!(s.next_token(), Ok(Token::Identifier("caf\u{e9}2".into())));
    assert_eq!(s.next_token(), Ok(Token::Identifier("x".into())));
}

#[test]
fn unicode_whitespace_is_skipped() {
    let mut s = Scanner::new("\u{3000}7\u{a0}");
    assert_eq!(s.next_token(), Ok(Token::Number(num(7.0))));
    assert_eq!(s.next_token(), Ok(Token::Eof));
}

#[test]
fn position_counts_bytes() {
    let s = Scanner::new("");
    assert_eq!(s.current_position(), 0);
    let mut s = Scanner::new("\u{e9}\u{e9} 1");
    assert_eq!(s.current_position(), 2);
    assert_eq!(s.next_token(), Err(LexError::UnexpectedCharacter('\u{e9}')));
    let mut s = Scanner::new("ab + 1");
    assert_eq!(s.current_position(), 1);
    let _ = s.next_token();
    assert_eq!(s.current_position(), 3);
    let _ = s.next_token();
    assert_eq!(s.current_position(), 5);
    let _ = s.next_token();
    assert_eq!(s.current_position(), 6);
}

#[test]
fn whitespace_agrees_with_std() {
    for v in 0u32..0x3100 {
        let c = match char::from_u32(v) {
            Some(c) => c,
            None => continue,
        };
        let text = format!("{}@", c);
        let mut s = Scanner::new(&text);
        let skipped = s.next_token() == Err(LexError::UnexpectedCharacter('@'));
        assert_eq!(skipped, c.is_whitespace() || c == '@', "char {:#x}", v);
    }
}
