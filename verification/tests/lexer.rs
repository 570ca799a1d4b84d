use se_lang::lexer::{LexError, Lexer};
use se_lang::token::Token;

fn all_tokens(lexer: &mut Lexer) -> Vec<Token> {
    let mut tokens = Vec::new();
    loop {
        let token = lexer.next_token().unwrap();
        if token == Token::Eof {
            return tokens;
        }
        tokens.push(token);
    }
}

#[test]
fn test_numbers_and_scientific_notation() {
    let input = "123 1e5";
    let mut lexer = Lexer::new(input, "");

    assert_eq!(lexer.next_token(), Ok(Token::Number("123".to_string())));
    assert_eq!(lexer.next_token(), Ok(Token::Number("100000".to_string())));
}

#[test]
fn exponent_zero_adds_nothing() {
    let mut lexer = Lexer::new("1e0", "");
    assert_eq!(lexer.next_token(), Ok(Token::Number("1".to_string())));
    assert_eq!(lexer.next_token(), Ok(Token::Eof));
    assert_eq!(lexer.next_token(), Ok(Token::Eof));
}

#[test]
fn include_enters_header_and_resumes() {
    let mut lexer = Lexer::new("a $include \"h.se\" b", "dir");
    assert!(lexer.add_header("h.se", "x y"));
    assert!(!lexer.add_header("h.se", "z"));
    assert_eq!(lexer.working_dir(), "dir");
    assert_eq!(
        all_tokens(&mut lexer),
        vec![
            Token::Identifier("a".to_string()),
            Token::Include("h.se".to_string()),
            Token::Identifier("x".to_string()),
            Token::Identifier("y".to_string()),
            Token::Identifier("b".to_string()),
        ]
    );
}

#[test]
fn missing_header_fails_until_given() {
    let mut lexer = Lexer::new("$include \"h.se\" b", "");
    assert_eq!(lexer.next_token(), Err(LexError::MissingInclude("h.se".to_string())));
    assert_eq!(lexer.next_token(), Err(LexError::MissingInclude("h.se".to_string())));
    assert!(lexer.add_header("h.se", ""));
    assert_eq!(lexer.next_token(), Ok(Token::Include("h.se".to_string())));
    assert_eq!(lexer.next_token(), Ok(Token::Identifier("b".to_string())));
}

#[test]
fn header_that_includes_itself_is_entered_without_end() {
    let text = "$include \"a.se\"";
    let mut lexer = Lexer::new(text, "");
    assert!(lexer.add_header("a.se", text));
    for _ in 0..1000 {
        assert_eq!(lexer.next_token(), Ok(Token::Include("a.se".to_string())));
    }
}

#[test]
fn include_cycle_through_two_headers_never_reaches_the_end() {
    let mut lexer = Lexer::new("$include \"a\" z", "");
    assert!(lexer.add_header("a", "x $include \"b\" never"));
    assert!(lexer.add_header("b", "y $include \"a\" never"));
    assert_eq!(lexer.next_token(), Ok(Token::Include("a".to_string())));
    for _ in 0..500 {
        assert_eq!(lexer.next_token(), Ok(Token::Identifier("x".to_string())));
        assert_eq!(lexer.next_token(), Ok(Token::Include("b".to_string())));
        assert_eq!(lexer.next_token(), Ok(Token::Identifier("y".to_string())));
        assert_eq!(lexer.next_token(), Ok(Token::Include("a".to_string())));
    }
}

#[test]
fn header_may_be_included_twice_in_a_row() {
    let mut lexer = Lexer::new("$include \"h\" $include \"h\" end", "");
    assert!(lexer.add_header("h", "x"));
    assert_eq!(
        all_tokens(&mut lexer),
        vec![
            Token::Include("h".to_string()),
            Token::Identifier("x".to_string()),
            Token::Include("h".to_string()),
            Token::Identifier("x".to_string()),
            Token::Identifier("end".to_string()),
        ]
    );
}

#[test]
fn reading_ahead_tells_whether_the_tokens_end() {
    let mut lexer = Lexer::new("a b c", "");
    assert!(!lexer.ends_within(0));
    assert!(!lexer.ends_within(2));
    assert!(lexer.ends_within(3));
    assert!(lexer.ends_within(usize::MAX));
    assert_eq!(lexer.position(), 0);
    assert_eq!(lexer.next_token(), Ok(Token::Identifier("a".to_string())));
    assert!(lexer.ends_within(2));
    assert!(!lexer.ends_within(1));
    assert_eq!(lexer.next_token(), Ok(Token::Identifier("b".to_string())));

    let mut empty = Lexer::new("  ", "");
    assert!(empty.ends_within(0));

    let mut failing = Lexer::new("a $include \"h\" b", "");
    assert!(!failing.ends_within(0));
    assert!(failing.ends_within(1));
    assert!(failing.add_header("h", "x y"));
    assert!(!failing.ends_within(4));
    assert!(failing.ends_within(5));
    assert_eq!(all_tokens(&mut failing).len(), 5);

    let text = "$include \"a.se\"";
    let mut cyclic = Lexer::new(text, "");
    assert!(cyclic.add_header("a.se", text));
    assert!(!cyclic.ends_within(10000));
    assert_eq!(cyclic.next_token(), Ok(Token::Include("a.se".to_string())));
}
