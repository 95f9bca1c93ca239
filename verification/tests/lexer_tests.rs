//! Tests of the lexer: the token stream of a small program, keyword
//! reclassification, radix literals, and lexical errors.

use script_front::lexer::{IntPrefix, Lexer};
use script_front::token::{lookup_indent, Token};

#[test]
fn test_next_token() {
    let input = "let five = 5;\n\nlet ten = 10;\n\nlet add = fn(x, y) {\n\tx + y;\n};\n\nlet result = add(five, ten);\n";
    let tests = vec![
        ("LET", "let"),
        ("IDENT", "five"),
        ("=", "="),
        ("INT", "5"),
        (";", ";"),
        ("LET", "let"),
        ("IDENT", "ten"),
        ("=", "="),
        ("INT", "10"),
        (";", ";"),
        ("LET", "let"),
        ("IDENT", "add"),
        ("=", "="),
        ("FUNCTION", "fn"),
        ("(", "("),
        ("IDENT", "x"),
        (",", ","),
        ("IDENT", "y"),
        (")", ")"),
        ("{", "{"),
        ("IDENT", "x"),
        ("+", "+"),
        ("IDENT", "y"),
        (";", ";"),
        ("}", "}"),
        (";", ";"),
        ("LET", "let"),
        ("IDENT", "result"),
        ("=", "="),
        ("IDENT", "add"),
        ("(", "("),
        ("IDENT", "five"),
        (",", ","),
        ("IDENT", "ten"),
        (")", ")"),
        (";", ";"),
    ];

    let mut lex = Lexer::new(String::from(input));
    let tokens = lex.tokenize().unwrap();
    assert_eq!(tokens.len(), tests.len());
    for (tok, (expected_type, expected_literal)) in tokens.iter().zip(tests.iter()) {
        println!(
            "\t\"Type\": {{expected: {{\"{}\"    found: \"{}\"}}}},",
            expected_type,
            tok.token_type()
        );
        println!(
            "\t\"Literal\": {{expected: {{\"{}\": found: \"{}\"}}}},",
            expected_literal,
            tok.literal()
        );
        assert_eq!(*expected_type, tok.token_type());
        assert_eq!(*expected_literal, tok.literal());
    }
}

#[test]
fn lexer_test_next_token() {
    let input = String::from("let five = 5;\n\nlet ten = 10;\n\nlet add = fn(x, y) {\n\tx + y;\n};\n\nlet result = add(five, ten);\n!-/*5; let True = true; let False = !True");
    let tests = vec![
        Token::Let,
        Token::Ident(String::from("five")),
        Token::Assign,
        Token::Int(5),
        Token::Semicolon,
        Token::Let,
        Token::Ident(String::from("ten")),
        Token::Assign,
        Token::Int(10),
        Token::Semicolon,
        Token::Let,
        Token::Ident(String::from("add")),
        Token::Assign,
        Token::Function,
        Token::LeftParen,
        Token::Ident(String::from("x")),
        Token::Comma,
        Token::Ident(String::from("y")),
        Token::RightParen,
        Token::LeftBrace,
        Token::Ident(String::from("x")),
        Token::Plus,
        Token::Ident(String::from("y")),
        Token::Semicolon,
        Token::RightBrace,
        Token::Semicolon,
        Token::Let,
        Token::Ident(String::from("result")),
        Token::Assign,
        Token::Ident(String::from("add")),
        Token::LeftParen,
        Token::Ident(String::from("five")),
        Token::Comma,
        Token::Ident(String::from("ten")),
        Token::RightParen,
        Token::Semicolon,
        Token::Bang,
        Token::Minus,
        Token::Slash,
        Token::Asterisk,
        Token::Int(5),
        Token::Semicolon,
        Token::Let,
        Token::Ident(String::from("True")),
        Token::Assign,
        Token::Boolean(true),
        Token::Semicolon,
        Token::Let,
        Token::Ident(String::from("False")),
        Token::Assign,
        Token::Bang,
        Token::Ident(String::from("True")),
    ];

    let mut lex = Lexer::new(input);
    let tokens = lex.tokenize().unwrap();
    println!("{{");
    for (found, expected) in tokens.iter().zip(tests.iter()) {
        println!("\t\"Token\": {{expected: {{\"{:?}\"    found: \"{:?}\"}}}},", expected, found);
        assert_eq!(expected, found);
    }
    println!("}}");
    assert_eq!(tokens.len(), tests.len());
}

#[test]
fn test_radix_literals() {
    let mut lex = Lexer::new(String::from("0x1F"));
    assert_eq!(lex.tokenize().unwrap(), vec![Token::Int(31)]);
    let mut lex = Lexer::new(String::from("0b101"));
    assert_eq!(lex.tokenize().unwrap(), vec![Token::Int(5)]);
    let mut lex = Lexer::new(String::from("0o17"));
    assert_eq!(lex.tokenize().unwrap(), vec![Token::Int(15)]);
    let mut lex = Lexer::new(String::from("42"));
    assert_eq!(lex.tokenize().unwrap(), vec![Token::Int(42)]);
    let mut lex = Lexer::new(String::from("0"));
    assert_eq!(lex.tokenize().unwrap(), vec![Token::Int(0)]);
}

#[test]
fn test_malformed_radix_literal() {
    let mut lex = Lexer::new(String::from("0xG"));
    let err = lex.tokenize().unwrap_err();
    assert_eq!(err.pos, 0);
    let mut lex = Lexer::new(String::from("let a = 0b2;"));
    let err = lex.tokenize().unwrap_err();
    assert_eq!(err.pos, 8);
}

#[test]
fn test_number_too_large() {
    let mut lex = Lexer::new(String::from("99999999999999999999999999999"));
    let err = lex.tokenize().unwrap_err();
    assert_eq!(err.pos, 0);
}

#[test]
fn test_illegal_character_keeps_stream_alive() {
    let mut lex = Lexer::new(String::from("a # b"));
    let tokens = lex.tokenize().unwrap();
    assert_eq!(
        tokens,
        vec![
            Token::Ident(String::from("a")),
            Token::Illegal('#'),
            Token::Ident(String::from("b")),
        ]
    );
}

#[test]
fn test_two_character_operators() {
    let mut lex = Lexer::new(String::from("== != <= >= = ! < >"));
    let tokens = lex.tokenize().unwrap();
    assert_eq!(
        tokens,
        vec![
            Token::Equal,
            Token::NotEqual,
            Token::LowerThanOrEqualTo,
            Token::GreaterThanOrEqualTo,
            Token::Assign,
            Token::Bang,
            Token::LowerThan,
            Token::GreaterThan,
        ]
    );
}

#[test]
fn test_lookup_indent() {
    assert_eq!(lookup_indent("fn"), Token::Function);
    assert_eq!(lookup_indent("let"), Token::Let);
    assert_eq!(lookup_indent("true"), Token::Boolean(true));
    assert_eq!(lookup_indent("false"), Token::Boolean(false));
    assert_eq!(lookup_indent("if"), Token::If);
    assert_eq!(lookup_indent("else"), Token::Else);
    assert_eq!(lookup_indent("return"), Token::Return);
    assert_eq!(lookup_indent("foobar"), Token::Ident(String::from("foobar")));
    assert_eq!(lookup_indent("lets"), Token::Ident(String::from("lets")));
}

#[test]
fn test_int_prefix() {
    assert!(IntPrefix::Hexadecimal.is_digit('F'));
    assert!(IntPrefix::Hexadecimal.is_digit('a'));
    assert!(!IntPrefix::Hexadecimal.is_digit('G'));
    assert!(IntPrefix::Binary.is_digit('1'));
    assert!(!IntPrefix::Binary.is_digit('2'));
    assert!(IntPrefix::Octal.is_digit('7'));
    assert!(!IntPrefix::Octal.is_digit('8'));
    assert!(IntPrefix::Decimal.is_digit('9'));
    assert!(!IntPrefix::Decimal.is_digit('a'));

    assert_eq!(IntPrefix::Hexadecimal.parse_number("1F"), Some(31));
    assert_eq!(IntPrefix::Binary.parse_number("101"), Some(5));
    assert_eq!(IntPrefix::Octal.parse_number("17"), Some(15));
    assert_eq!(IntPrefix::Decimal.parse_number("90210"), Some(90210));
    assert_eq!(IntPrefix::Hexadecimal.parse_number("G"), None);
    assert_eq!(IntPrefix::Decimal.parse_number(""), None);
    assert_eq!(IntPrefix::Decimal.parse_number("99999999999999999999999999999"), None);
}

#[test]
fn test_whitespace_skipping() {
    let mut lex = Lexer::new(String::from("  \t\r\n  1 \n\t 2  "));
    assert_eq!(lex.tokenize().unwrap(), vec![Token::Int(1), Token::Int(2)]);
}

#[test]
fn test_empty_input() {
    let mut lex = Lexer::new(String::new());
    assert_eq!(lex.tokenize().unwrap(), Vec::<Token>::new());
}

#[test]
fn test_maximal_digit_run() {
    // The digit run is maximal for its radix; what follows lexes on its own.
    let mut lex = Lexer::new(String::from("0x1FG"));
    assert_eq!(
        lex.tokenize().unwrap(),
        vec![Token::Int(31), Token::Ident(String::from("G"))]
    );
    let mut lex = Lexer::new(String::from("123abc"));
    assert_eq!(
        lex.tokenize().unwrap(),
        vec![Token::Int(123), Token::Ident(String::from("abc"))]
    );
}
