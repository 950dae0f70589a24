use minilex::Lexer;
use minilex::Token;
use minilex::TokenKind;

fn check(input: &str, expected: Vec<Token>) {
    let mut lexer = Lexer::new(input);

    for (index, expected_token) in expected.into_iter().enumerate() {
        let next_token = lexer.next();
        assert_eq!(
            expected_token.kind, next_token.kind,
            "Index={index} incorrect token, Expected={:?}, Got={:?}",
            expected_token.kind, next_token.kind
        );

        assert_eq!(
            expected_token.literal, next_token.literal,
            "Index={index} incorrect literal, Expected={}, Got={}",
            expected_token.literal, next_token.literal
        );
    }
}

fn tok(kind: TokenKind, literal: &str) -> Token {
    Token {
        kind,
        literal: literal.to_string(),
    }
}

#[test]
fn test_strings() {
    let input = r#"
let name = "John";
"#;

    let expected: Vec<Token> = vec![
        tok(TokenKind::Let, "let"),
        tok(TokenKind::Identifier, "name"),
        tok(TokenKind::Assign, "="),
        tok(TokenKind::Str, "John"),
        tok(TokenKind::Semicolon, ";"),
    ];

    check(input, expected);
}

#[test]
fn test_comments_ignored() {
    let input = r#"
// Comments should be ignored!
let is_logged_in = true;
"#;

    let expected: Vec<Token> = vec![
        tok(TokenKind::Let, "let"),
        tok(TokenKind::Identifier, "is_logged_in"),
        tok(TokenKind::Assign, "="),
        tok(TokenKind::True, "true"),
    ];

    check(input, expected);
}

#[test]
fn test_parse_basic_script() {
    let input = r#"let one = 1;
let three = 3;

let add = fn(x, y) {
    x + y
}

let result = add(one, three);
"#;

    let expected: Vec<Token> = vec![
        // let one = 1
        tok(TokenKind::Let, "let"),
        tok(TokenKind::Identifier, "one"),
        tok(TokenKind::Assign, "="),
        tok(TokenKind::Int, "1"),
        tok(TokenKind::Semicolon, ";"),
        // let three = 3
        tok(TokenKind::Let, "let"),
        tok(TokenKind::Identifier, "three"),
        tok(TokenKind::Assign, "="),
        tok(TokenKind::Int, "3"),
        tok(TokenKind::Semicolon, ";"),
        // let add = fn(x, y) { x + y }
        tok(TokenKind::Let, "let"),
        tok(TokenKind::Identifier, "add"),
        tok(TokenKind::Assign, "="),
        tok(TokenKind::Fn, "fn"),
        tok(TokenKind::LeftParen, "("),
        tok(TokenKind::Identifier, "x"),
        tok(TokenKind::Comma, ","),
        tok(TokenKind::Identifier, "y"),
        tok(TokenKind::RightParen, ")"),
        tok(TokenKind::LeftBrace, "{"),
        tok(TokenKind::Identifier, "x"),
        tok(TokenKind::Plus, "+"),
        tok(TokenKind::Identifier, "y"),
        tok(TokenKind::RightBrace, "}"),
        // let result = add(one, three)
        tok(TokenKind::Let, "let"),
        tok(TokenKind::Identifier, "result"),
        tok(TokenKind::Assign, "="),
        tok(TokenKind::Identifier, "add"),
        tok(TokenKind::LeftParen, "("),
        tok(TokenKind::Identifier, "one"),
        tok(TokenKind::Comma, ","),
        tok(TokenKind::Identifier, "three"),
        tok(TokenKind::RightParen, ")"),
    ];

    check(input, expected);
}

#[test]
fn test_next_token() {
    let input = "=+(){},;";

    let expected: Vec<Token> = vec![
        tok(TokenKind::Assign, "="),
        tok(TokenKind::Plus, "+"),
        tok(TokenKind::LeftParen, "("),
        tok(TokenKind::RightParen, ")"),
        tok(TokenKind::LeftBrace, "{"),
        tok(TokenKind::RightBrace, "}"),
        tok(TokenKind::Comma, ","),
        tok(TokenKind::Semicolon, ";"),
    ];

    check(input, expected);
}

#[test]
fn test_additional_tokens() {
    let input = r#"
        !-/*5;
        2 < 3 > 8;
        "#;

    let expected: Vec<Token> = vec![
        // !-/*5;
        tok(TokenKind::Bang, "!"),
        tok(TokenKind::Minus, "-"),
        tok(TokenKind::Slash, "/"),
        tok(TokenKind::Asterisk, "*"),
        tok(TokenKind::Int, "5"),
        tok(TokenKind::Semicolon, ";"),
        // 2 < 3 > 8;
        tok(TokenKind::Int, "2"),
        tok(TokenKind::LessThan, "<"),
        tok(TokenKind::Int, "3"),
        tok(TokenKind::GreaterThan, ">"),
        tok(TokenKind::Int, "8"),
        tok(TokenKind::Semicolon, ";"),
    ];

    check(input, expected);
}

#[test]
fn test_if_else_statement() {
    let input = r#"
        if (4 > 2) {
            return true;
        } else {
            return false;
        }
        "#;

    let expected: Vec<Token> = vec![
        // if (4 > 2) { return true; } else { return false; }
        tok(TokenKind::If, "if"),
        tok(TokenKind::LeftParen, "("),
        tok(TokenKind::Int, "4"),
        tok(TokenKind::GreaterThan, ">"),
        tok(TokenKind::Int, "2"),
        tok(TokenKind::RightParen, ")"),
        tok(TokenKind::LeftBrace, "{"),
        tok(TokenKind::Return, "return"),
        tok(TokenKind::True, "true"),
        tok(TokenKind::Semicolon, ";"),
        tok(TokenKind::RightBrace, "}"),
        tok(TokenKind::Else, "else"),
        tok(TokenKind::LeftBrace, "{"),
        tok(TokenKind::Return, "return"),
        tok(TokenKind::False, "false"),
        tok(TokenKind::Semicolon, ";"),
        tok(TokenKind::RightBrace, "}"),
    ];

    check(input, expected);
}

#[test]
fn test_eq_eq_and_not_eq() {
    let input = r#"
        1 == 1;
        2 != 1;
        "#;

    let expected: Vec<Token> = vec![
        // 1 == 1;
        tok(TokenKind::Int, "1"),
        tok(TokenKind::Eq, "=="),
        tok(TokenKind::Int, "1"),
        tok(TokenKind::Semicolon, ";"),
        // 2 != 1;
        tok(TokenKind::Int, "2"),
        tok(TokenKind::NotEq, "!="),
        tok(TokenKind::Int, "1"),
        tok(TokenKind::Semicolon, ";"),
    ];

    check(input, expected);
}
