use lang_scan::lexer::CharClass;
use lang_scan::scan::{classify, is_identifier, multi, punctuation};
use lang_scan::{source, Error, Scanner, Token, TokenStr};

fn num(s: &str) -> Token {
    Token::Number(TokenStr::from(s))
}

fn ident(s: &str) -> Token {
    Token::Identifier(TokenStr::from(s))
}

fn scan(s: &str) -> Result<Vec<Token>, Error> {
    source(String::from(s))
}

#[test]
fn test_add() {
    let correct_toks = vec![
        Token::Number(String::from("13")),
        Token::Star,
        Token::Number(String::from("5")),
        Token::Semicolon,
        Token::End,
    ];
    let file_toks = match scan("13*5;\n") {
        Ok(ts) => ts,
        Err(_) => return assert_eq!(true, false),
    };
    assert_eq!(file_toks, correct_toks)
}

#[test]
fn test_minus() {
    let correct_toks = vec![
        Token::Number(TokenStr::from("24")),
        Token::Minus,
        Token::Number(TokenStr::from("12")),
        Token::Semicolon,
        Token::End,
    ];
    let file_toks = match scan("24-12;\n") {
        Ok(ts) => ts,
        Err(_) => return assert_eq!(true, false),
    };
    assert_eq!(file_toks, correct_toks)
}

#[test]
fn test_plus() {
    let correct_toks = vec![
        Token::Number(TokenStr::from("78")),
        Token::Plus,
        Token::Number(TokenStr::from("12")),
        Token::Semicolon,
        Token::Number(TokenStr::from("23")),
        Token::PlusEqual,
        Token::Number(TokenStr::from("98")),
        Token::Semicolon,
        Token::End,
    ];
    let file_toks = match scan("78+12;\n23+=98;\n") {
        Ok(ts) => ts,
        Err(_) => return assert_eq!(true, false),
    };
    assert_eq!(file_toks, correct_toks)
}

#[test]
fn test_star() {
    let correct_toks = vec![
        Token::Number(TokenStr::from("19")),
        Token::Star,
        Token::Number(TokenStr::from("73")),
        Token::Semicolon,
        Token::Number(TokenStr::from("38")),
        Token::StarEqual,
        Token::Number(TokenStr::from("27")),
        Token::Semicolon,
        Token::End,
    ];
    let file_toks = match scan("19*73;\n38*=27;\n") {
        Ok(ts) => ts,
        Err(_) => return assert_eq!(true, false),
    };
    assert_eq!(file_toks, correct_toks)
}

#[test]
fn test_slash() {
    let correct_toks = vec![
        Token::Number(TokenStr::from("81")),
        Token::Slash,
        Token::Number(TokenStr::from("398")),
        Token::Semicolon,
        Token::Identifier(TokenStr::from("thing")),
        Token::Equal,
        Token::Number(TokenStr::from("64")),
        Token::Semicolon,
        Token::Identifier(TokenStr::from("thing")),
        Token::SlashEqual,
        Token::Number(TokenStr::from("18")),
        Token::Semicolon,
        Token::End,
    ];
    let file_toks = match scan("81/398;\nthing = 64;\nthing /= 18;\n") {
        Ok(ts) => ts,
        Err(_) => return assert_eq!(true, false),
    };
    assert_eq!(file_toks, correct_toks)
}

#[test]
fn scenario_star_without_spaces() {
    assert_eq!(
        scan("13*5;").unwrap(),
        vec![num("13"), Token::Star, num("5"), Token::Semicolon, Token::End]
    );
}

#[test]
fn scenario_minus_without_spaces() {
    assert_eq!(
        scan("24-12;").unwrap(),
        vec![num("24"), Token::Minus, num("12"), Token::Semicolon, Token::End]
    );
}

#[test]
fn scenario_assignments() {
    assert_eq!(
        scan("thing=64; thing/=18;").unwrap(),
        vec![
            ident("thing"),
            Token::Equal,
            num("64"),
            Token::Semicolon,
            ident("thing"),
            Token::SlashEqual,
            num("18"),
            Token::Semicolon,
            Token::End,
        ]
    );
}

#[test]
fn scenario_plus_forms() {
    assert_eq!(
        scan("78+12;23+=98;").unwrap(),
        vec![
            num("78"),
            Token::Plus,
            num("12"),
            Token::Semicolon,
            num("23"),
            Token::PlusEqual,
            num("98"),
            Token::Semicolon,
            Token::End,
        ]
    );
}

#[test]
fn lone_ampersand_is_rejected() {
    assert_eq!(scan("a & b"), Err(Error::Terminal));
    assert_eq!(scan("&"), Err(Error::Terminal));
}

#[test]
fn double_ampersand_is_and() {
    assert_eq!(scan("a&&b").unwrap(), vec![ident("a"), Token::And, ident("b"), Token::End]);
}

#[test]
fn empty_input_is_only_end() {
    assert_eq!(scan("").unwrap(), vec![Token::End]);
}

#[test]
fn whitespace_only_is_only_end() {
    assert_eq!(scan("  \n \n").unwrap(), vec![Token::End]);
}

#[test]
fn maximal_munch_plus_equal() {
    assert_eq!(scan("+=").unwrap(), vec![Token::PlusEqual, Token::End]);
}

#[test]
fn spaced_plus_equal_is_two_tokens() {
    assert_eq!(scan("+ =").unwrap(), vec![Token::Plus, Token::Equal, Token::End]);
}

#[test]
fn every_compound_operator() {
    assert_eq!(
        scan("== != *= /= -= += ++ -- &&").unwrap(),
        vec![
            Token::EqualEqual,
            Token::BangEqual,
            Token::StarEqual,
            Token::SlashEqual,
            Token::MinusEqual,
            Token::PlusEqual,
            Token::PlusPlus,
            Token::MinusMinus,
            Token::And,
            Token::End,
        ]
    );
}

#[test]
fn every_single_operator() {
    assert_eq!(
        scan("= ! * / - + %").unwrap(),
        vec![
            Token::Equal,
            Token::Bang,
            Token::Star,
            Token::Slash,
            Token::Minus,
            Token::Plus,
            Token::Mod,
            Token::End,
        ]
    );
}

#[test]
fn triple_plus_is_increment_then_plus() {
    assert_eq!(scan("+++").unwrap(), vec![Token::PlusPlus, Token::Plus, Token::End]);
}

#[test]
fn operator_at_end_of_input() {
    assert_eq!(scan("x-").unwrap(), vec![ident("x"), Token::Minus, Token::End]);
}

#[test]
fn punctuation_marks() {
    assert_eq!(
        scan("(){}[],.:;").unwrap(),
        vec![
            Token::LeftParen,
            Token::RightParen,
            Token::LeftBrace,
            Token::RightBrace,
            Token::LeftBracket,
            Token::RightBracket,
            Token::Comma,
            Token::Dot,
            Token::Colon,
            Token::Semicolon,
            Token::End,
        ]
    );
}

#[test]
fn number_stops_at_first_non_digit() {
    assert_eq!(scan("123abc").unwrap(), vec![num("123"), ident("abc"), Token::End]);
}

#[test]
fn number_takes_decimal_point() {
    assert_eq!(scan("3.14;").unwrap(), vec![num("3.14"), Token::Semicolon, Token::End]);
}

#[test]
fn lone_dot_is_dot() {
    assert_eq!(scan(".5").unwrap(), vec![Token::Dot, num("5"), Token::End]);
}

#[test]
fn identifier_takes_digits_and_underscores() {
    assert_eq!(
        scan("foo_bar9 x").unwrap(),
        vec![ident("foo_bar9"), ident("x"), Token::End]
    );
}

#[test]
fn identifier_cannot_start_with_underscore() {
    assert_eq!(scan("_x"), Err(Error::Terminal));
}

#[test]
fn unrecognized_characters_fail() {
    assert_eq!(scan("a # b"), Err(Error::Terminal));
    assert_eq!(scan("a < b"), Err(Error::Terminal));
    assert_eq!(scan("\"s\""), Err(Error::Terminal));
    assert_eq!(scan("x\ty"), Err(Error::Terminal));
}

#[test]
fn non_ascii_letters_fail() {
    assert_eq!(scan("é"), Err(Error::Terminal));
}

#[test]
fn end_stands_once_at_the_end() {
    let ts = scan("f(a, b) { x += 1; }").unwrap();
    assert_eq!(ts.last(), Some(&Token::End));
    assert_eq!(ts.iter().filter(|t| **t == Token::End).count(), 1);
}

fn width(t: &Token) -> usize {
    match t {
        Token::Identifier(s) | Token::String(s) | Token::Number(s) => s.chars().count(),
        Token::End => 0,
        Token::SlashEqual
        | Token::StarEqual
        | Token::PlusPlus
        | Token::PlusEqual
        | Token::MinusMinus
        | Token::MinusEqual
        | Token::BangEqual
        | Token::EqualEqual
        | Token::GreaterEqual
        | Token::LessEqual
        | Token::And => 2,
        _ => 1,
    }
}

#[test]
fn every_character_is_accounted_for() {
    let text = "count = 12.5 * (rate-- + x1);\n  ok = !done && y != 3;";
    let ts = scan(text).unwrap();
    let covered: usize = ts.iter().map(width).sum();
    let spaces = text.chars().filter(|c| *c == ' ' || *c == '\n').count();
    assert_eq!(covered + spaces, text.chars().count());
}

#[test]
fn peek_is_idempotent() {
    let s = Scanner::new("ab");
    assert!(s.peek('a'));
    assert!(s.peek('a'));
    assert!(!s.peek('b'));
    assert!(!s.peek('b'));
}

#[test]
fn failed_match_consumes_nothing() {
    let mut s = Scanner::new("ab");
    assert!(!s.match_char('b'));
    assert!(s.peek('a'));
    assert!(s.match_char('a'));
    assert!(s.peek('b'));
    assert_eq!(s.advance(), Some('b'));
    assert_eq!(s.advance(), None);
    assert!(!s.peek('b'));
    assert!(!s.match_char('b'));
}

#[test]
fn accumulators_leave_the_boundary() {
    let mut s = Scanner::new("42.0x_1+");
    let first = s.advance().unwrap();
    assert_eq!(s.number(first), num("42.0"));
    let next = s.advance().unwrap();
    assert_eq!(s.identifier(next), ident("x_1"));
    assert!(s.peek('+'));
}

#[test]
fn resolver_table() {
    let mut s = Scanner::new("=");
    assert_eq!(multi(&mut s, '='), Ok(Token::EqualEqual));
    assert_eq!(s.advance(), None);
    let mut s = Scanner::new("x");
    assert_eq!(multi(&mut s, '&'), Err(Error::Terminal));
    assert!(s.peek('x'));
    assert_eq!(multi(&mut s, '-'), Ok(Token::Minus));
    assert_eq!(multi(&mut s, '#'), Err(Error::Terminal));
    assert!(s.peek('x'));
    assert_eq!(multi(&mut s, 'q'), Ok(ident("qx")));
    assert_eq!(s.advance(), None);
}

#[test]
fn resolver_takes_identifier_after_letter() {
    let mut s = Scanner::new("ab_1 c");
    assert_eq!(multi(&mut s, 'z'), Ok(ident("zab_1")));
    assert!(s.peek(' '));
}

#[test]
fn paired_ampersands_scan() {
    assert_eq!(
        scan("a&&&&b").unwrap(),
        vec![ident("a"), Token::And, Token::And, ident("b"), Token::End]
    );
}

#[test]
fn odd_ampersand_run_fails() {
    assert_eq!(scan("a&&&b"), Err(Error::Terminal));
    assert_eq!(scan("1&2"), Err(Error::Terminal));
    assert_eq!(scan("x && y &"), Err(Error::Terminal));
}

fn spelling(t: &Token) -> String {
    match t {
        Token::Identifier(s) | Token::String(s) | Token::Number(s) => s.clone(),
        Token::LeftParen => String::from("("),
        Token::RightParen => String::from(")"),
        Token::LeftBrace => String::from("{"),
        Token::RightBrace => String::from("}"),
        Token::Semicolon => String::from(";"),
        Token::Dot => String::from("."),
        Token::Star => String::from("*"),
        Token::Plus => String::from("+"),
        Token::PlusEqual => String::from("+="),
        Token::MinusMinus => String::from("--"),
        Token::Equal => String::from("="),
        Token::BangEqual => String::from("!="),
        Token::Bang => String::from("!"),
        Token::And => String::from("&&"),
        Token::End => String::new(),
        other => panic!("no spelling listed for {:?}", other),
    }
}

#[test]
fn tokens_spell_the_text_without_whitespace() {
    let text = "count = 12.5 * (rate-- + x1);\n  ok += !done && y != 3; { a . b }";
    let ts = scan(text).unwrap();
    let joined: String = ts.iter().map(spelling).collect();
    let stripped: String = text.chars().filter(|c| *c != ' ' && *c != '\n').collect();
    assert_eq!(joined, stripped);
}

#[test]
fn classification() {
    assert_eq!(classify('7'), CharClass::Digit);
    assert_eq!(classify('Q'), CharClass::Alpha);
    assert_eq!(classify(';'), CharClass::Punct);
    assert_eq!(classify('&'), CharClass::Operator);
    assert_eq!(classify('\n'), CharClass::Space);
    assert_eq!(classify('@'), CharClass::Invalid);
    assert!(is_identifier(&'_'));
    assert!(!is_identifier(&'-'));
    assert_eq!(punctuation('%'), Some(Token::Mod));
    assert_eq!(punctuation('+'), None);
}
