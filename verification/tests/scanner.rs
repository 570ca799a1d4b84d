use se_lang::decimal::{checked_pow, parse_bounded, parse_u128, u128_to_string};
use se_lang::lexer::{LexError, Lexer};
use se_lang::scanner::{expand_scientific_notation, parse_exponent};
use se_lang::token::Token;

fn tokens(input: &str) -> Vec<Token> {
    let mut lexer = Lexer::new(input, "");
    let mut out = Vec::new();
    loop {
        let token = lexer.next_token().unwrap();
        if token == Token::Eof {
            return out;
        }
        out.push(token);
    }
}

fn number(text: &str) -> Token {
    Token::Number(text.to_string())
}

fn ident(text: &str) -> Token {
    Token::Identifier(text.to_string())
}

fn op(text: &str) -> Token {
    Token::Operator(text.to_string())
}

#[test]
fn plain_literals_stay_unchanged() {
    for text in ["0", "7", "123", "007", "1.5", ".5", "5.", "1.2.3", "340282366920938463463374607431768211456"] {
        assert_eq!(tokens(text), vec![number(text)]);
    }
    assert_eq!(tokens("  42;"), vec![number("42"), Token::SemiColon]);
}

#[test]
fn exponents_are_written_out() {
    assert_eq!(tokens("1e5"), vec![number("100000")]);
    assert_eq!(tokens("1e0"), vec![number("1")]);
    assert_eq!(tokens("10E12"), vec![number("10000000000000")]);
    assert_eq!(tokens("1.5e2"), vec![number("1.500")]);
    assert_eq!(tokens(".e1"), vec![number(".0")]);
    assert_eq!(tokens("2e03"), vec![number("2000")]);
}

#[test]
fn unreadable_exponents_leave_the_text_as_it_is() {
    assert_eq!(tokens("1e"), vec![number("1e")]);
    assert_eq!(tokens("1e1.5"), vec![number("1e1.5")]);
    assert_eq!(tokens("1e2e3"), vec![number("1e2e3")]);
    assert_eq!(tokens("1e-5"), vec![number("1e"), op("-"), number("5")]);
    assert_eq!(tokens("1e2147483648"), vec![number("1e2147483648")]);
}

#[test]
fn lone_dot_is_the_period() {
    assert_eq!(tokens("."), vec![Token::Period]);
    assert_eq!(tokens("a . b"), vec![ident("a"), Token::Period, ident("b")]);
    assert_eq!(tokens(".."), vec![number("..")]);
}

#[test]
fn keywords_and_identifiers() {
    assert_eq!(
        tokens("$define version schemes $state $consts $procedures address table u128 u8 bool pub mut return"),
        vec![
            Token::Define,
            Token::Version,
            Token::Schemes,
            Token::State,
            Token::Consts,
            Token::Procedures,
            Token::Address,
            Token::Table,
            Token::U128,
            Token::U8,
            Token::Bool,
            Token::PubFModifier,
            Token::MutFModifier,
            Token::Return,
        ]
    );
    assert_eq!(
        tokens("Version $defines u1288 a_b$c x1 _y \u{e9}t\u{e9}"),
        vec![
            ident("Version"),
            ident("$defines"),
            ident("u1288"),
            ident("a_b$c"),
            ident("x1"),
            op("_"),
            ident("y"),
            ident("\u{e9}t\u{e9}"),
        ]
    );
}

#[test]
fn punctuation_and_operators() {
    assert_eq!(
        tokens("{}[](),;"),
        vec![
            Token::LeftBrace,
            Token::RightBrace,
            Token::LeftBracket,
            Token::RightBracket,
            Token::LeftParen,
            Token::RightParen,
            Token::Comma,
            Token::SemiColon,
        ]
    );
    assert_eq!(tokens("=="), vec![op("="), op("=")]);
    assert_eq!(tokens("a/b"), vec![ident("a"), op("/"), ident("b")]);
    assert_eq!(tokens("+-*%^@\u{2192}"), vec![op("+"), op("-"), op("*"), op("%"), op("^"), op("@"), op("\u{2192}")]);
}

#[test]
fn comments_run_to_the_end_of_the_line() {
    assert_eq!(
        tokens("a // b c\nd"),
        vec![ident("a"), Token::Comment("// b c".to_string()), ident("d")]
    );
    assert_eq!(tokens("//"), vec![Token::Comment("//".to_string())]);
    assert_eq!(tokens("///x"), vec![Token::Comment("///x".to_string())]);
}

#[test]
fn strings_are_taken_as_they_stand() {
    assert_eq!(tokens("\"a b\\n\""), vec![Token::String("a b\\n".to_string())]);
    assert_eq!(tokens("\"\""), vec![Token::String(String::new())]);
    assert_eq!(tokens("\"open"), vec![Token::String("open".to_string())]);
    assert_eq!(
        tokens("\"a\"\"b\""),
        vec![Token::String("a".to_string()), Token::String("b".to_string())]
    );
}

#[test]
fn unicode_blanks_are_skipped() {
    assert_eq!(tokens("\u{a0}a\u{2003}\tb\r\n"), vec![ident("a"), ident("b")]);
}

#[test]
fn include_forms() {
    let mut lexer = Lexer::new("$include h x", "");
    lexer.add_header("h x", "1");
    assert_eq!(lexer.next_token(), Ok(Token::Include("h x".to_string())));
    assert_eq!(lexer.next_token(), Ok(number("1")));
    assert_eq!(lexer.next_token(), Ok(Token::Eof));

    let mut lexer = Lexer::new("$include   \"\" z", "");
    lexer.add_header("", "  ");
    assert_eq!(lexer.next_token(), Ok(Token::Include(String::new())));
    assert_eq!(lexer.next_token(), Ok(ident("z")));
}

#[test]
fn position_follows_the_cursor() {
    let mut lexer = Lexer::new("  ab  cd", "");
    assert_eq!(lexer.position(), 0);
    lexer.next_token().unwrap();
    assert_eq!(lexer.position(), 4);
    lexer.skip_whitespace();
    assert_eq!(lexer.position(), 6);
    lexer.next_token().unwrap();
    assert_eq!(lexer.position(), 8);
    assert_eq!(lexer.next_token(), Ok(Token::Eof));
    assert_eq!(lexer.position(), 8);
}

#[test]
fn load_header_enters_known_headers_only() {
    let mut lexer = Lexer::new("tail", "");
    lexer.add_header("h", "head");
    assert_eq!(lexer.load_header("g"), Err(LexError::MissingInclude("g".to_string())));
    assert_eq!(lexer.load_header("h"), Ok(()));
    assert_eq!(lexer.load_header("h"), Ok(()));
    assert_eq!(lexer.next_token(), Ok(ident("head")));
    assert_eq!(lexer.next_token(), Ok(ident("head")));
    assert_eq!(lexer.next_token(), Ok(ident("tail")));
    assert_eq!(lexer.next_token(), Ok(Token::Eof));
}

#[test]
fn exponent_parsing() {
    let chars = |s: &str| s.chars().collect::<Vec<char>>();
    assert_eq!(parse_exponent(&chars("1e5")), Some(5));
    assert_eq!(parse_exponent(&chars("1E2147483647")), Some(2147483647));
    assert_eq!(parse_exponent(&chars("1e2147483648")), None);
    assert_eq!(parse_exponent(&chars("15")), None);
    assert_eq!(parse_exponent(&chars("1e")), None);
    assert_eq!(parse_exponent(&chars("1e+5")), None);
    assert_eq!(parse_exponent(&chars("e0")), Some(0));
    assert_eq!(expand_scientific_notation(&chars("12"), 3), "12000");
    assert_eq!(expand_scientific_notation(&chars("12"), 0), "12");
    assert_eq!(expand_scientific_notation(&chars("12"), -4), "12");
    assert_eq!(expand_scientific_notation(&chars(""), 2), "00");
}

#[test]
fn decimal_reading_and_writing() {
    assert_eq!(parse_u128("0"), Some(0));
    assert_eq!(parse_u128("000123"), Some(123));
    assert_eq!(parse_u128("340282366920938463463374607431768211455"), Some(u128::MAX));
    assert_eq!(parse_u128("340282366920938463463374607431768211456"), None);
    assert_eq!(parse_u128("3402823669209384634633746074317682114550"), None);
    assert_eq!(parse_u128(""), None);
    assert_eq!(parse_u128("12a"), None);
    assert_eq!(parse_u128("-1"), None);
    assert_eq!(parse_u128(" 1"), None);
    assert_eq!(parse_u128("\u{663}"), None);
    assert_eq!(parse_bounded("255", 255), Some(255));
    assert_eq!(parse_bounded("256", 255), None);
    assert_eq!(u128_to_string(0), "0");
    assert_eq!(u128_to_string(9), "9");
    assert_eq!(u128_to_string(10), "10");
    assert_eq!(u128_to_string(1203), "1203");
    assert_eq!(u128_to_string(u128::MAX), "340282366920938463463374607431768211455");
    for n in [0u128, 1, 99, 100, 65535, 1 << 64, u128::MAX] {
        assert_eq!(parse_u128(&u128_to_string(n)), Some(n));
    }
}

#[test]
fn powers_report_overflow() {
    assert_eq!(checked_pow(0, 0), Some(1));
    assert_eq!(checked_pow(0, 5), Some(0));
    assert_eq!(checked_pow(1, u128::MAX), Some(1));
    assert_eq!(checked_pow(0, u128::MAX), Some(0));
    assert_eq!(checked_pow(2, u128::MAX), None);
    assert_eq!(checked_pow(2, 127), Some(1 << 127));
    assert_eq!(checked_pow(2, 128), None);
    assert_eq!(checked_pow(10, 38), Some(100000000000000000000000000000000000000));
    assert_eq!(checked_pow(10, 39), None);
    assert_eq!(checked_pow(u128::MAX, 1), Some(u128::MAX));
    assert_eq!(checked_pow(u128::MAX, 2), None);
    assert_eq!(checked_pow(3, 4), Some(81));
}
