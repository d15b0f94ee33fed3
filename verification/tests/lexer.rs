use monkey::lexer::Lexer;
use monkey::token::Token;

fn token_test(input: &str, expected_tokens: Vec<Token>) {
    let mut lexer = Lexer::new(&input.to_string());
    for expected_token in expected_tokens {
        let token = lexer.next_token();
        assert_eq!(token, expected_token);
    }
}

#[test]
fn test_lex_single_token() {
    let input = "let five = 5;";
    let expected_output = vec![
        Token::Let,
        Token::Ident("five".to_string()),
        Token::Assign,
        Token::Int(5),
        Token::Semicolon,
        Token::EOF,
    ];
    token_test(input, expected_output);
}

#[test]
fn test_lex_multiple_tokens() {
    let input = "let ten = 10;
                 let add = fn(x, y) {
                     x + y;
                 };
                 let result = add(five, ten);";
    let expected_output = vec![
        Token::Let,
        Token::Ident("ten".to_string()),
        Token::Assign,
        Token::Int(10),
        Token::Semicolon,
        Token::Let,
        Token::Ident("add".to_string()),
        Token::Assign,
        Token::Function,
        Token::LParen,
        Token::Ident("x".to_string()),
        Token::Comma,
        Token::Ident("y".to_string()),
        Token::RParen,
        Token::LBrace,
        Token::Ident("x".to_string()),
        Token::Plus,
        Token::Ident("y".to_string()),
        Token::Semicolon,
        Token::RBrace,
        Token::Semicolon,
        Token::Let,
        Token::Ident("result".to_string()),
        Token::Assign,
        Token::Ident("add".to_string()),
        Token::LParen,
        Token::Ident("five".to_string()),
        Token::Comma,
        Token::Ident("ten".to_string()),
        Token::RParen,
        Token::Semicolon,
        Token::EOF,
    ];
    token_test(input, expected_output);
}

#[test]
fn test_lex_tokens() {
    let input = r#"let five = 5;
    let ten=10;

    let add = fn(x, y) {
      x + y;
    };

    let result = add(five, ten);
    !-/*5;
    5 < 10 > 5;

    if (5 < 10) {
    	return true;
    } else {
    	return false;
    }

    10 == 10;
    10 != 9;
    "foobar"
    "foo bar"
    [1, 2];
    {"foo": "bar"}"#;

    let expected_output = vec![
        Token::Let,
        Token::Ident("five".to_string()),
        Token::Assign,
        Token::Int(5),
        Token::Semicolon,
        Token::Let,
        Token::Ident("ten".to_string()),
        Token::Assign,
        Token::Int(10),
        Token::Semicolon,
        Token::Let,
        Token::Ident("add".to_string()),
        Token::Assign,
        Token::Function,
        Token::LParen,
        Token::Ident("x".to_string()),
        Token::Comma,
        Token::Ident("y".to_string()),
        Token::RParen,
        Token::LBrace,
        Token::Ident("x".to_string()),
        Token::Plus,
        Token::Ident("y".to_string()),
        Token::Semicolon,
        Token::RBrace,
        Token::Semicolon,
        Token::Let,
        Token::Ident("result".to_string()),
        Token::Assign,
        Token::Ident("add".to_string()),
        Token::LParen,
        Token::Ident("five".to_string()),
        Token::Comma,
        Token::Ident("ten".to_string()),
        Token::RParen,
        Token::Semicolon,
        Token::Bang,
        Token::Minus,
        Token::Slash,
        Token::Asterisk,
        Token::Int(5),
        Token::Semicolon,
        Token::Int(5),
        Token::Lt,
        Token::Int(10),
        Token::Gt,
        Token::Int(5),
        Token::Semicolon,
        Token::If,
        Token::LParen,
        Token::Int(5),
        Token::Lt,
        Token::Int(10),
        Token::RParen,
        Token::LBrace,
        Token::Return,
        Token::True,
        Token::Semicolon,
        Token::RBrace,
        Token::Else,
        Token::LBrace,
        Token::Return,
        Token::False,
        Token::Semicolon,
        Token::RBrace,
        Token::Int(10),
        Token::Eq,
        Token::Int(10),
        Token::Semicolon,
        Token::Int(10),
        Token::NotEq,
        Token::Int(9),
        Token::Semicolon,
        Token::String("foobar".to_string()),
        Token::String("foo bar".to_string()),
        Token::LBracket,
        Token::Int(1),
        Token::Comma,
        Token::Int(2),
        Token::RBracket,
        Token::Semicolon,
        Token::LBrace,
        Token::String("foo".to_string()),
        Token::Colon,
        Token::String("bar".to_string()),
        Token::RBrace,
        Token::EOF,
    ];
    token_test(input, expected_output);
}

#[test]
fn test_lex_illegal_character() {
    token_test("5 @ 6", vec![
        Token::Int(5),
        Token::Illegal("@".to_string()),
        Token::Int(6),
        Token::EOF,
    ]);
}

#[test]
fn test_lex_integer_overflow_is_illegal() {
    token_test("9223372036854775808", vec![
        Token::Illegal("9223372036854775808".to_string()),
        Token::EOF,
    ]);
}

#[test]
fn test_lex_max_integer() {
    token_test("9223372036854775807", vec![Token::Int(9223372036854775807), Token::EOF]);
}

#[test]
fn test_lex_empty_input() {
    token_test("", vec![Token::EOF, Token::EOF]);
}

#[test]
fn test_lex_unterminated_string() {
    token_test("\"abc", vec![Token::String("abc".to_string()), Token::EOF]);
}
