use minilex::Lexer;
use minilex::TokenKind;
use minilex::lookup_identifier;

fn kinds_and_texts(input: &str) -> Vec<(TokenKind, String)> {
    let mut lexer = Lexer::new(input);
    let mut out: Vec<(TokenKind, String)> = Vec::new();
    loop {
        let token = lexer.next();
        let done = token.kind == TokenKind::Eof;
        out.push((token.kind, token.literal));
        if done {
            break;
        }
    }
    out
}

fn expect(input: &str, expected: &[(TokenKind, &str)]) {
    let got = kinds_and_texts(input);
    assert_eq!(got.len(), expected.len(), "token count for {input:?}: {got:?}");
    for (index, ((gk, gt), (ek, et))) in got.iter().zip(expected.iter()).enumerate() {
        assert_eq!(gk, ek, "Index={index} kind for {input:?}");
        assert_eq!(gt, et, "Index={index} text for {input:?}");
    }
}

#[test]
fn scenario_punctuation_run() {
    expect(
        "=+(){},;",
        &[
            (TokenKind::Assign, "="),
            (TokenKind::Plus, "+"),
            (TokenKind::LeftParen, "("),
            (TokenKind::RightParen, ")"),
            (TokenKind::LeftBrace, "{"),
            (TokenKind::RightBrace, "}"),
            (TokenKind::Comma, ","),
            (TokenKind::Semicolon, ";"),
            (TokenKind::Eof, ""),
        ],
    );
}

#[test]
fn scenario_let_binding() {
    expect(
        "let x = 5;",
        &[
            (TokenKind::Let, "let"),
            (TokenKind::Identifier, "x"),
            (TokenKind::Assign, "="),
            (TokenKind::Int, "5"),
            (TokenKind::Semicolon, ";"),
            (TokenKind::Eof, ""),
        ],
    );
}

#[test]
fn scenario_comparisons() {
    expect(
        "1 == 1;\n2 != 1;",
        &[
            (TokenKind::Int, "1"),
            (TokenKind::Eq, "=="),
            (TokenKind::Int, "1"),
            (TokenKind::Semicolon, ";"),
            (TokenKind::Int, "2"),
            (TokenKind::NotEq, "!="),
            (TokenKind::Int, "1"),
            (TokenKind::Semicolon, ";"),
            (TokenKind::Eof, ""),
        ],
    );
}

#[test]
fn scenario_comment_contributes_nothing() {
    expect(
        "// comment\nlet y = true;",
        &[
            (TokenKind::Let, "let"),
            (TokenKind::Identifier, "y"),
            (TokenKind::Assign, "="),
            (TokenKind::True, "true"),
            (TokenKind::Semicolon, ";"),
            (TokenKind::Eof, ""),
        ],
    );
    // the same input with the comment text removed scans identically
    expect(
        "\nlet y = true;",
        &[
            (TokenKind::Let, "let"),
            (TokenKind::Identifier, "y"),
            (TokenKind::Assign, "="),
            (TokenKind::True, "true"),
            (TokenKind::Semicolon, ";"),
            (TokenKind::Eof, ""),
        ],
    );
}

#[test]
fn scenario_string_literal_excludes_quotes() {
    expect(
        "let s = \"John\";",
        &[
            (TokenKind::Let, "let"),
            (TokenKind::Identifier, "s"),
            (TokenKind::Assign, "="),
            (TokenKind::Str, "John"),
            (TokenKind::Semicolon, ";"),
            (TokenKind::Eof, ""),
        ],
    );
}

#[test]
fn scenario_unrecognized_character() {
    expect("@", &[(TokenKind::Illegal, "@"), (TokenKind::Eof, "")]);
}

#[test]
fn eof_is_idempotent() {
    let mut lexer = Lexer::new("");
    for _ in 0..4 {
        let token = lexer.next();
        assert_eq!(token.kind, TokenKind::Eof);
        assert_eq!(token.literal, "");
    }

    let mut lexer = Lexer::new("x");
    assert_eq!(lexer.next().kind, TokenKind::Identifier);
    for _ in 0..4 {
        assert_eq!(lexer.next().kind, TokenKind::Eof);
    }
}

#[test]
fn whitespace_only_yields_eof() {
    expect(" \t\r\n  ", &[(TokenKind::Eof, "")]);
}

#[test]
fn comment_to_end_of_input() {
    expect(
        "let x // trailing words",
        &[
            (TokenKind::Let, "let"),
            (TokenKind::Identifier, "x"),
            (TokenKind::Eof, ""),
        ],
    );
}

#[test]
fn consecutive_comment_lines() {
    expect(
        "// one\n// two\n42",
        &[(TokenKind::Int, "42"), (TokenKind::Eof, "")],
    );
}

#[test]
fn unterminated_string_runs_to_end() {
    expect(
        "\"abc",
        &[(TokenKind::Str, "abc"), (TokenKind::Eof, "")],
    );
}

#[test]
fn empty_string_literal() {
    expect(
        "\"\"x",
        &[
            (TokenKind::Str, ""),
            (TokenKind::Identifier, "x"),
            (TokenKind::Eof, ""),
        ],
    );
}

#[test]
fn every_keyword_scans_to_its_kind() {
    let cases = [
        (TokenKind::Fn, "fn"),
        (TokenKind::Let, "let"),
        (TokenKind::If, "if"),
        (TokenKind::Else, "else"),
        (TokenKind::True, "true"),
        (TokenKind::False, "false"),
        (TokenKind::Return, "return"),
    ];
    for (kind, spelling) in cases {
        expect(spelling, &[(kind, spelling), (TokenKind::Eof, "")]);
    }
}

#[test]
fn near_keywords_are_identifiers() {
    for spelling in ["fns", "lets", "iff", "elsewhere", "truth", "falsey", "returns", "Fn", "LET"] {
        expect(
            spelling,
            &[(TokenKind::Identifier, spelling), (TokenKind::Eof, "")],
        );
    }
}

#[test]
fn lookup_identifier_table() {
    assert_eq!(lookup_identifier(&"fn".to_string()), TokenKind::Fn);
    assert_eq!(lookup_identifier(&"let".to_string()), TokenKind::Let);
    assert_eq!(lookup_identifier(&"if".to_string()), TokenKind::If);
    assert_eq!(lookup_identifier(&"else".to_string()), TokenKind::Else);
    assert_eq!(lookup_identifier(&"true".to_string()), TokenKind::True);
    assert_eq!(lookup_identifier(&"false".to_string()), TokenKind::False);
    assert_eq!(lookup_identifier(&"return".to_string()), TokenKind::Return);
    assert_eq!(
        lookup_identifier(&"anything_else".to_string()),
        TokenKind::Identifier
    );
}

#[test]
fn integer_literal_round_trips() {
    expect("0042", &[(TokenKind::Int, "0042"), (TokenKind::Eof, "")]);
    expect(
        "7 77",
        &[
            (TokenKind::Int, "7"),
            (TokenKind::Int, "77"),
            (TokenKind::Eof, ""),
        ],
    );
}

#[test]
fn identifiers_do_not_continue_with_digits() {
    // a digit ends an identifier run, so `x1` is two tokens
    expect(
        "x1",
        &[
            (TokenKind::Identifier, "x"),
            (TokenKind::Int, "1"),
            (TokenKind::Eof, ""),
        ],
    );
}

#[test]
fn identifiers_with_underscores_and_unicode() {
    expect(
        "_foo_bar",
        &[(TokenKind::Identifier, "_foo_bar"), (TokenKind::Eof, "")],
    );
    expect(
        "héllo",
        &[(TokenKind::Identifier, "héllo"), (TokenKind::Eof, "")],
    );
    expect(
        "日本語",
        &[(TokenKind::Identifier, "日本語"), (TokenKind::Eof, "")],
    );
}

#[test]
fn two_char_operators_bind_greedily() {
    expect(
        "===",
        &[
            (TokenKind::Eq, "=="),
            (TokenKind::Assign, "="),
            (TokenKind::Eof, ""),
        ],
    );
    expect(
        "!!=",
        &[
            (TokenKind::Bang, "!"),
            (TokenKind::NotEq, "!="),
            (TokenKind::Eof, ""),
        ],
    );
}

#[test]
fn slash_alone_is_an_operator() {
    expect(
        "1/2",
        &[
            (TokenKind::Int, "1"),
            (TokenKind::Slash, "/"),
            (TokenKind::Int, "2"),
            (TokenKind::Eof, ""),
        ],
    );
}

#[test]
fn null_character_ends_the_stream() {
    // the null scalar is the scanner's end-of-input sentinel: it is never
    // consumed, and everything after it is unreachable
    let mut lexer = Lexer::new("a\u{0}b");
    assert_eq!(lexer.next().kind, TokenKind::Identifier);
    assert_eq!(lexer.next().kind, TokenKind::Eof);
    assert_eq!(lexer.next().kind, TokenKind::Eof);
}

#[test]
fn non_letter_non_digit_scalars_are_illegal() {
    for (input, text) in [("#", "#"), ("$", "$"), ("€", "€"), ("\u{0C}", "\u{0C}")] {
        expect(input, &[(TokenKind::Illegal, text), (TokenKind::Eof, "")]);
    }
}
