use monkey::lexer::Lexer;
use monkey::token::Token;

fn all_tokens(input: &str) -> Vec<Token> {
    let mut lexer = Lexer::new(input);
    let mut tokens = Vec::new();
    loop {
        let token = lexer.next_token();
        if token == Token::EOF {
            return tokens;
        }
        tokens.push(token);
    }
}

#[test]
fn test_next_token() {
    let input = r#"let five = 5;
let ten = 10;

let add = fn(x, y) {
    x + y;
};

let result = add(five, ten);
!-/*5;
5 < 10 > 5;

if (5 < 10) {
    return true;
} else {
    return false;
}

1 == 1;
1 != 2;
"#;
    let tests = vec![
        Token::LET,
        Token::IDENT(String::from("five")),
        Token::ASSIGN,
        Token::INT(5),
        Token::SEMICOLON,
        Token::LET,
        Token::IDENT(String::from("ten")),
        Token::ASSIGN,
        Token::INT(10),
        Token::SEMICOLON,
        Token::LET,
        Token::IDENT(String::from("add")),
        Token::ASSIGN,
        Token::FUNCTION,
        Token::LPAREN,
        Token::IDENT(String::from("x")),
        Token::COMMA,
        Token::IDENT(String::from("y")),
        Token::RPAREN,
        Token::LBRACE,
        Token::IDENT(String::from("x")),
        Token::PLUS,
        Token::IDENT(String::from("y")),
        Token::SEMICOLON,
        Token::RBRACE,
        Token::SEMICOLON,
        Token::LET,
        Token::IDENT(String::from("result")),
        Token::ASSIGN,
        Token::IDENT(String::from("add")),
        Token::LPAREN,
        Token::IDENT(String::from("five")),
        Token::COMMA,
        Token::IDENT(String::from("ten")),
        Token::RPAREN,
        Token::SEMICOLON,
        Token::BANG,
        Token::MINUS,
        Token::SLASH,
        Token::ASTERISK,
        Token::INT(5),
        Token::SEMICOLON,
        Token::INT(5),
        Token::LT,
        Token::INT(10),
        Token::GT,
        Token::INT(5),
        Token::SEMICOLON,
        Token::IF,
        Token::LPAREN,
        Token::INT(5),
        Token::LT,
        Token::INT(10),
        Token::RPAREN,
        Token::LBRACE,
        Token::RETURN,
        Token::BOOL(true),
        Token::SEMICOLON,
        Token::RBRACE,
        Token::ELSE,
        Token::LBRACE,
        Token::RETURN,
        Token::BOOL(false),
        Token::SEMICOLON,
        Token::RBRACE,
        Token::INT(1),
        Token::EQ,
        Token::INT(1),
        Token::SEMICOLON,
        Token::INT(1),
        Token::NotEq,
        Token::INT(2),
        Token::SEMICOLON,
        Token::EOF,
    ];
    let mut lexer = Lexer::new(input);

    for expect in tests {
        let tok = lexer.next_token();
        assert_eq!(expect, tok);
    }
}

#[test]
fn let_statement_tokens_then_eof_forever() {
    let mut lexer = Lexer::new("let five = 5;");
    assert_eq!(lexer.next_token(), Token::LET);
    assert_eq!(lexer.next_token(), Token::IDENT(String::from("five")));
    assert_eq!(lexer.next_token(), Token::ASSIGN);
    assert_eq!(lexer.next_token(), Token::INT(5));
    assert_eq!(lexer.next_token(), Token::SEMICOLON);
    assert_eq!(lexer.next_token(), Token::EOF);
    assert_eq!(lexer.next_token(), Token::EOF);
    assert_eq!(lexer.next_token(), Token::EOF);
}

#[test]
fn double_equals_is_one_token() {
    let mut lexer = Lexer::new("==");
    assert_eq!(lexer.next_token(), Token::EQ);
    assert_eq!(lexer.next_token(), Token::EOF);
}

#[test]
fn bang_equals_is_one_token() {
    assert_eq!(all_tokens("!="), vec![Token::NotEq]);
    assert_eq!(all_tokens("! ="), vec![Token::BANG, Token::ASSIGN]);
    assert_eq!(all_tokens("!"), vec![Token::BANG]);
}

#[test]
fn equals_runs_pair_up_from_the_left() {
    assert_eq!(all_tokens("==="), vec![Token::EQ, Token::ASSIGN]);
    assert_eq!(all_tokens("===="), vec![Token::EQ, Token::EQ]);
    assert_eq!(all_tokens("= ="), vec![Token::ASSIGN, Token::ASSIGN]);
    assert_eq!(all_tokens("!=="), vec![Token::NotEq, Token::ASSIGN]);
}

#[test]
fn empty_and_blank_input_is_eof() {
    let mut lexer = Lexer::new("");
    assert_eq!(lexer.next_token(), Token::EOF);
    assert_eq!(lexer.next_token(), Token::EOF);
    let mut lexer = Lexer::new(" \t\n \n");
    assert_eq!(lexer.next_token(), Token::EOF);
    assert_eq!(lexer.next_token(), Token::EOF);
}

#[test]
fn blanks_separate_tokens() {
    assert_eq!(
        all_tokens("\ta\n\n b\t"),
        vec![Token::IDENT(String::from("a")), Token::IDENT(String::from("b"))]
    );
}

#[test]
fn carriage_return_is_not_a_blank() {
    assert_eq!(
        all_tokens("a\r\nb"),
        vec![
            Token::IDENT(String::from("a")),
            Token::ILLEGAL,
            Token::IDENT(String::from("b"))
        ]
    );
}

#[test]
fn keywords_are_told_from_identifiers() {
    assert_eq!(
        all_tokens("fn let true false if else return"),
        vec![
            Token::FUNCTION,
            Token::LET,
            Token::BOOL(true),
            Token::BOOL(false),
            Token::IF,
            Token::ELSE,
            Token::RETURN
        ]
    );
    assert_eq!(
        all_tokens("fnx lets Let _if returned f"),
        vec![
            Token::IDENT(String::from("fnx")),
            Token::IDENT(String::from("lets")),
            Token::IDENT(String::from("Let")),
            Token::IDENT(String::from("_if")),
            Token::IDENT(String::from("returned")),
            Token::IDENT(String::from("f"))
        ]
    );
}

#[test]
fn identifiers_take_letters_and_underscores_only() {
    assert_eq!(
        all_tokens("foo_Bar9z"),
        vec![
            Token::IDENT(String::from("foo_Bar")),
            Token::INT(9),
            Token::IDENT(String::from("z"))
        ]
    );
    assert_eq!(all_tokens("__"), vec![Token::IDENT(String::from("__"))]);
}

#[test]
fn numbers_take_the_whole_run_of_digits() {
    assert_eq!(all_tokens("0"), vec![Token::INT(0)]);
    assert_eq!(all_tokens("007"), vec![Token::INT(7)]);
    assert_eq!(all_tokens("993322"), vec![Token::INT(993322)]);
    assert_eq!(
        all_tokens("12 34"),
        vec![Token::INT(12), Token::INT(34)]
    );
    assert_eq!(
        all_tokens("12ab"),
        vec![Token::INT(12), Token::IDENT(String::from("ab"))]
    );
}

#[test]
fn largest_number_fits() {
    assert_eq!(
        all_tokens("9223372036854775807"),
        vec![Token::INT(9223372036854775807)]
    );
    assert_eq!(
        all_tokens("0009223372036854775807;"),
        vec![Token::INT(i64::MAX), Token::SEMICOLON]
    );
}

#[test]
fn number_out_of_range_is_illegal() {
    assert_eq!(all_tokens("9223372036854775808"), vec![Token::ILLEGAL]);
    assert_eq!(
        all_tokens("99999999999999999999999999999999 1"),
        vec![Token::ILLEGAL, Token::INT(1)]
    );
    assert_eq!(
        all_tokens("18446744073709551616;"),
        vec![Token::ILLEGAL, Token::SEMICOLON]
    );
}

#[test]
fn minus_sign_is_its_own_token() {
    assert_eq!(all_tokens("-15"), vec![Token::MINUS, Token::INT(15)]);
}

#[test]
fn every_operator_and_mark() {
    assert_eq!(
        all_tokens("=+-!*/<>,;(){}"),
        vec![
            Token::ASSIGN,
            Token::PLUS,
            Token::MINUS,
            Token::BANG,
            Token::ASTERISK,
            Token::SLASH,
            Token::LT,
            Token::GT,
            Token::COMMA,
            Token::SEMICOLON,
            Token::LPAREN,
            Token::RPAREN,
            Token::LBRACE,
            Token::RBRACE
        ]
    );
}

#[test]
fn unknown_bytes_are_illegal_one_by_one() {
    assert_eq!(
        all_tokens("@#$"),
        vec![Token::ILLEGAL, Token::ILLEGAL, Token::ILLEGAL]
    );
    assert_eq!(
        all_tokens("a ? b"),
        vec![
            Token::IDENT(String::from("a")),
            Token::ILLEGAL,
            Token::IDENT(String::from("b"))
        ]
    );
}

#[test]
fn zero_byte_is_illegal_and_not_the_end() {
    assert_eq!(
        all_tokens("a\0b"),
        vec![
            Token::IDENT(String::from("a")),
            Token::ILLEGAL,
            Token::IDENT(String::from("b"))
        ]
    );
}

#[test]
fn bytes_outside_ascii_are_illegal_one_by_one() {
    // U+00E9 takes two bytes, U+20AC three.
    assert_eq!(
        all_tokens("x\u{e9}y"),
        vec![
            Token::IDENT(String::from("x")),
            Token::ILLEGAL,
            Token::ILLEGAL,
            Token::IDENT(String::from("y"))
        ]
    );
    assert_eq!(
        all_tokens("\u{20ac}"),
        vec![Token::ILLEGAL, Token::ILLEGAL, Token::ILLEGAL]
    );
    assert_eq!(
        all_tokens("ab\u{e9}"),
        vec![
            Token::IDENT(String::from("ab")),
            Token::ILLEGAL,
            Token::ILLEGAL
        ]
    );
}

#[test]
fn read_char_moves_one_byte_and_stops_at_the_end() {
    let mut lexer = Lexer::new("ab cd");
    lexer.read_char();
    assert_eq!(lexer.next_token(), Token::IDENT(String::from("b")));
    lexer.read_char();
    lexer.read_char();
    assert_eq!(lexer.next_token(), Token::IDENT(String::from("d")));
    lexer.read_char();
    lexer.read_char();
    assert_eq!(lexer.next_token(), Token::EOF);
}

#[test]
fn no_more_tokens_than_bytes() {
    let inputs = ["", "a", "==", "a+b", "  1  ", "!!!!", "let x = 5;", "\u{e9}\u{e9}"];
    for input in inputs {
        assert!(all_tokens(input).len() <= input.len());
    }
}

#[test]
fn token_names_in_diagnostics() {
    assert_eq!(Token::ASSIGN.describe(), "ASSIGN");
    assert_eq!(Token::NotEq.describe(), "NotEq");
    assert_eq!(Token::EOF.describe(), "EOF");
    assert_eq!(Token::ILLEGAL.describe(), "ILLEGAL");
    assert_eq!(Token::INT(5).describe(), "INT(5)");
    assert_eq!(Token::INT(0).describe(), "INT(0)");
    assert_eq!(Token::INT(1234567890).describe(), "INT(1234567890)");
    assert_eq!(Token::INT(-42).describe(), "INT(-42)");
    assert_eq!(
        Token::INT(i64::MAX).describe(),
        "INT(9223372036854775807)"
    );
    assert_eq!(
        Token::INT(i64::MIN).describe(),
        "INT(-9223372036854775808)"
    );
    assert_eq!(Token::BOOL(true).describe(), "BOOL(true)");
    assert_eq!(Token::BOOL(false).describe(), "BOOL(false)");
    assert_eq!(
        Token::IDENT(String::from("five")).describe(),
        "IDENT(\"five\")"
    );
}

#[test]
fn token_names_agree_with_debug_form() {
    let tokens = all_tokens(
        "let five = 5; fn(x, y) { x + y; } !-/*<> == != if else return true false @ 10",
    );
    for token in tokens {
        assert_eq!(token.describe(), format!("{:?}", token));
    }
    assert_eq!(Token::EOF.describe(), format!("{:?}", Token::EOF));
}

#[test]
fn token_equality_and_clone() {
    let a = Token::IDENT(String::from("x"));
    assert_eq!(a.clone(), a);
    assert_ne!(a, Token::IDENT(String::from("y")));
    assert_ne!(Token::INT(1), Token::INT(2));
    assert_ne!(Token::BOOL(true), Token::BOOL(false));
    assert_ne!(Token::ASSIGN, Token::EQ);
    assert_eq!(Token::INT(7).clone(), Token::INT(7));
    assert_eq!(Token::RETURN.clone(), Token::RETURN);
}
