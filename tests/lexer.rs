use monkey::lexer::{LexError, Lexer};
use monkey::token::{integer_text, Token};

fn tokens(input: &str) -> Vec<Token> {
    let mut lexer = Lexer::new(input);
    let mut out = Vec::new();
    loop {
        let token = lexer.next_token();
        let done = token == Token::EOF;
        out.push(token);
        if done {
            return out;
        }
    }
}

fn ident(s: &str) -> Token {
    Token::Ident(s.to_string())
}

#[test]
fn test_tokenize_delimiters() {
    let input = "(){}[],;:";
    let mut tokens = Lexer::new(input);

    let expected = vec![
        Token::LParen,
        Token::RParen,
        Token::LBrace,
        Token::RBrace,
        Token::LBracket,
        Token::RBracket,
        Token::Comma,
        Token::Semicolon,
        Token::Colon,
        Token::EOF,
    ];

    for token_expected in expected.iter() {
        let token = tokens.next_token();
        assert_eq!(&token, token_expected);
    }
}

#[test]
fn test_tokenize_operators() {
    let input = "+ = == ! != - / * < >";
    let mut tokens = Lexer::new(input);

    let expected = vec![
        Token::Plus,
        Token::Assign,
        Token::Eq,
        Token::Bang,
        Token::NotEq,
        Token::Minus,
        Token::Slash,
        Token::Asterisk,
        Token::LT,
        Token::GT,
        Token::EOF,
    ];

    for token_expected in expected.iter() {
        let token = tokens.next_token();
        assert_eq!(&token, token_expected);
    }
}

#[test]
fn test_tokenize_keywords() {
    let input = "if else true false return";
    let mut tokens = Lexer::new(input);

    let expected = vec![
        Token::If,
        Token::Else,
        Token::Bool(true),
        Token::Bool(false),
        Token::Ret,
        Token::EOF,
    ];

    for token_expected in expected.iter() {
        let token = tokens.next_token();
        assert_eq!(&token, token_expected);
    }
}

#[test]
fn test_tokenize_program() {
    let input = "let five = 5; \
                 let ten = 10; \
                 let add = fn(x, y) { x + y;}; \
                 let result = add(five, ten);";

    let mut tokens = Lexer::new(input);

    let expected = vec![
        Token::Let,
        Token::Ident("five".to_string()),
        Token::Assign,
        Token::Integer(5),
        Token::Semicolon,
        Token::Let,
        Token::Ident("ten".to_string()),
        Token::Assign,
        Token::Integer(10),
        Token::Semicolon,
        Token::Let,
        Token::Ident("add".to_string()),
        Token::Assign,
        Token::Fn,
        Token::LParen,
        Token::Ident("x".to_string()),
        Token::Comma,
        Token::Ident("y".to_string()),
        Token::RParen,
        Token::LBrace,
        Token::Ident("x".to_string()),
        Token::Plus,
        Token::Ident("y".to_string()),
        Token::Semicolon,
        Token::RBrace,
        Token::Semicolon,
        Token::Let,
        Token::Ident("result".to_string()),
        Token::Assign,
        Token::Ident("add".to_string()),
        Token::LParen,
        Token::Ident("five".to_string()),
        Token::Comma,
        Token::Ident("ten".to_string()),
        Token::RParen,
        Token::Semicolon,
        Token::EOF,
    ];

    for token_expected in expected.iter() {
        let token = tokens.next_token();
        assert_eq!(&token, token_expected);
    }
}

#[test]
fn test_tokenize_string() {
    let input = "\"foobar\"";
    let mut tokens = Lexer::new(input);

    let expected = vec![Token::String("foobar".to_string())];

    for token_expected in expected.iter() {
        let token = tokens.next_token();
        assert_eq!(&token, token_expected);
    }
}

#[test]
fn let_statement_scenario() {
    assert_eq!(
        tokens("let five = 5;"),
        vec![Token::Let, ident("five"), Token::Assign, Token::Integer(5), Token::Semicolon, Token::EOF]
    );
}

#[test]
fn equality_scenario() {
    assert_eq!(
        tokens("10 == 10"),
        vec![Token::Integer(10), Token::Eq, Token::Integer(10), Token::EOF]
    );
}

#[test]
fn identifier_run_stops_at_digit() {
    assert_eq!(tokens("foobar_1"), vec![ident("foobar_"), Token::Integer(1), Token::EOF]);
}

#[test]
fn whitespace_produces_no_token() {
    let spaced = tokens("  let \t x\n=\r\n1 ;  ");
    let packed = tokens("let x=1;");
    assert_eq!(spaced, packed);
    assert_eq!(spaced.len(), 6);
}

#[test]
fn non_ascii_letters_and_symbols() {
    assert_eq!(tokens("日本 €"), vec![ident("日本"), Token::Illegal, Token::EOF]);
    assert_eq!(tokens("Ωmega"), vec![ident("Ωmega"), Token::EOF]);
}

#[test]
fn digit_starts_numeric_run() {
    assert_eq!(tokens("1abc"), vec![Token::Integer(1), ident("abc"), Token::EOF]);
}

#[test]
fn empty_input_gives_end_marker() {
    assert_eq!(tokens(""), vec![Token::EOF]);
}

#[test]
fn whitespace_only_input_gives_end_marker() {
    assert_eq!(tokens(" \t\r\n  "), vec![Token::EOF]);
}

#[test]
fn single_char_operators_map_pointwise() {
    assert_eq!(
        tokens("=!-/*<>;()[]:,+{}"),
        vec![
            Token::Assign,
            Token::Bang,
            Token::Minus,
            Token::Slash,
            Token::Asterisk,
            Token::LT,
            Token::GT,
            Token::Semicolon,
            Token::LParen,
            Token::RParen,
            Token::LBracket,
            Token::RBracket,
            Token::Colon,
            Token::Comma,
            Token::Plus,
            Token::LBrace,
            Token::RBrace,
            Token::EOF,
        ]
    );
}

#[test]
fn separated_equals_are_two_assigns() {
    assert_eq!(tokens("= ="), vec![Token::Assign, Token::Assign, Token::EOF]);
    assert_eq!(tokens("! ="), vec![Token::Bang, Token::Assign, Token::EOF]);
    assert_eq!(tokens("!=="), vec![Token::NotEq, Token::Assign, Token::EOF]);
    assert_eq!(tokens("==="), vec![Token::Eq, Token::Assign, Token::EOF]);
    assert_eq!(tokens("!"), vec![Token::Bang, Token::EOF]);
    assert_eq!(tokens("="), vec![Token::Assign, Token::EOF]);
}

#[test]
fn integer_run_resumes_at_next_char() {
    assert_eq!(
        tokens("12345;"),
        vec![Token::Integer(12345), Token::Semicolon, Token::EOF]
    );
    assert_eq!(
        tokens("2147483647+0"),
        vec![Token::Integer(2147483647), Token::Plus, Token::Integer(0), Token::EOF]
    );
    assert_eq!(tokens("007"), vec![Token::Integer(7), Token::EOF]);
}

#[test]
fn integer_overflow_is_an_error() {
    let mut lexer = Lexer::new("2147483648 x");
    assert_eq!(lexer.try_next_token(), Err(LexError::IntegerOverflow));
    assert_eq!(lexer.try_next_token(), Ok(ident("x")));
    assert_eq!(lexer.try_next_token(), Ok(Token::EOF));
}

#[test]
fn identifiers_keep_case() {
    assert_eq!(
        tokens("Let LET lets _x élan"),
        vec![ident("Let"), ident("LET"), ident("lets"), ident("_x"), ident("élan"), Token::EOF]
    );
}

#[test]
fn all_reserved_words() {
    assert_eq!(
        tokens("let fn true false if else return"),
        vec![
            Token::Let,
            Token::Fn,
            Token::Bool(true),
            Token::Bool(false),
            Token::If,
            Token::Else,
            Token::Ret,
            Token::EOF,
        ]
    );
    assert_eq!(tokens("(if)"), vec![Token::LParen, Token::If, Token::RParen, Token::EOF]);
}

#[test]
fn end_marker_is_terminal() {
    let mut lexer = Lexer::new("x");
    assert_eq!(lexer.next_token(), ident("x"));
    for _ in 0..5 {
        assert_eq!(lexer.next_token(), Token::EOF);
    }
}

#[test]
fn illegal_characters_do_not_stop_the_stream() {
    assert_eq!(
        tokens("a @ b\0c"),
        vec![ident("a"), Token::Illegal, ident("b"), Token::Illegal, ident("c"), Token::EOF]
    );
}

#[test]
fn string_literals() {
    assert_eq!(
        tokens("\"hello world\" x"),
        vec![Token::String("hello world".to_string()), ident("x"), Token::EOF]
    );
    assert_eq!(tokens("\"\""), vec![Token::String(String::new()), Token::EOF]);
    assert_eq!(tokens("x \"abc def"), vec![ident("x"), Token::Illegal, Token::EOF]);
}

#[test]
fn display_forms() {
    assert_eq!(Token::Integer(5).text(), "5");
    assert_eq!(Token::Integer(-2147483648).text(), "-2147483648");
    assert_eq!(Token::Integer(0).text(), "0");
    assert_eq!(Token::Bool(false).text(), "false");
    assert_eq!(ident("abc").text(), "abc");
    assert_eq!(Token::String("a b".to_string()).text(), "a b");
    assert_eq!(Token::Eq.text(), "==");
    assert_eq!(Token::LBrace.text(), "{");
    assert_eq!(Token::RBrace.text(), "}");
    assert_eq!(Token::Ret.text(), "return");
    assert_eq!(Token::EOF.text(), "EOF");
    assert_eq!(Token::Illegal.text(), "Illegal");
    assert_eq!(integer_text(1020), "1020");
}
