use monkey_lexer::lexer::Lexer;
use monkey_lexer::token::Token;
use monkey_lexer::token::lookup_ident;

fn collect_tokens(input: &str) -> Vec<Token> {
    let mut l = Lexer::new(input);
    let mut out = Vec::new();
    loop {
        let t = l.next_token();
        let done = t == Token::EOF;
        out.push(t);
        if done {
            return out;
        }
    }
}

#[test]
fn test_next_token() {
    let input = "=+(){},;";

    let tests = vec![
        Token::ASSIGN,
        Token::PLUS,
        Token::LPAREN,
        Token::RPAREN,
        Token::LBRACE,
        Token::RBRACE,
        Token::COMMA,
        Token::SEMICOLON,
        Token::EOF,
    ];

    let mut l = Lexer::new(input);

    tests.into_iter().for_each(|token| {
        let tok = l.next_token();

        assert_eq!(token, tok);
    })
}

#[test]
fn test_next_token_numbers_and_functions() {
    let input = "let five = 5;

let ten = 10;

let add = fn(x, y) {
    x + y;
};

let result = add(five, ten);
!-/*5;
5 < 10 > 5;

if (5 < 10) {
    return true;
} else {
    return false;
}

10 == 10;
10 != 9;
";

    let tests = vec![
        Token::LET,
        Token::IDENT("five".to_string()),
        Token::ASSIGN,
        Token::INT(5),
        Token::SEMICOLON,
        Token::LET,
        Token::IDENT("ten".to_string()),
        Token::ASSIGN,
        Token::INT(10),
        Token::SEMICOLON,
        Token::LET,
        Token::IDENT("add".to_string()),
        Token::ASSIGN,
        Token::FUNCTION,
        Token::LPAREN,
        Token::IDENT("x".to_string()),
        Token::COMMA,
        Token::IDENT("y".to_string()),
        Token::RPAREN,
        Token::LBRACE,
        Token::IDENT("x".to_string()),
        Token::PLUS,
        Token::IDENT("y".to_string()),
        Token::SEMICOLON,
        Token::RBRACE,
        Token::SEMICOLON,
        Token::LET,
        Token::IDENT("result".to_string()),
        Token::ASSIGN,
        Token::IDENT("add".to_string()),
        Token::LPAREN,
        Token::IDENT("five".to_string()),
        Token::COMMA,
        Token::IDENT("ten".to_string()),
        Token::RPAREN,
        Token::SEMICOLON,
        Token::BANG,
        Token::MINUS,
        Token::SLASH,
        Token::ASTERISK,
        Token::INT(5),
        Token::SEMICOLON,
        Token::INT(5),
        Token::LT,
        Token::INT(10),
        Token::GT,
        Token::INT(5),
        Token::SEMICOLON,
        Token::IF,
        Token::LPAREN,
        Token::INT(5),
        Token::LT,
        Token::INT(10),
        Token::RPAREN,
        Token::LBRACE,
        Token::RETURN,
        Token::TRUE,
        Token::SEMICOLON,
        Token::RBRACE,
        Token::ELSE,
        Token::LBRACE,
        Token::RETURN,
        Token::FALSE,
        Token::SEMICOLON,
        Token::RBRACE,
        Token::INT(10),
        Token::EQ,
        Token::INT(10),
        Token::SEMICOLON,
        Token::INT(10),
        Token::NotEq,
        Token::INT(9),
        Token::SEMICOLON,
        Token::EOF,
    ];

    let mut l = Lexer::new(input);

    tests.into_iter().for_each(|token| {
        let tok = l.next_token();

        assert_eq!(token, tok);
    })
}

#[test]
fn empty_input_yields_eof_forever() {
    let mut l = Lexer::new("");
    assert_eq!(l.next_token(), Token::EOF);
    assert_eq!(l.next_token(), Token::EOF);
    assert_eq!(l.next_token(), Token::EOF);
}

#[test]
fn eof_reached_within_input_length_and_stays() {
    let input = "x + y";
    let mut l = Lexer::new(input);
    let mut eof_seen = false;
    for _ in 0..input.len() {
        if l.next_token() == Token::EOF {
            eof_seen = true;
            break;
        }
    }
    assert!(eof_seen);
    assert_eq!(l.next_token(), Token::EOF);
    assert_eq!(l.next_token(), Token::EOF);
}

#[test]
fn double_equals_is_one_equality_token() {
    assert_eq!(collect_tokens("=="), vec![Token::EQ, Token::EOF]);
}

#[test]
fn single_equals_leaves_next_char_unconsumed() {
    assert_eq!(
        collect_tokens("=a"),
        vec![Token::ASSIGN, Token::IDENT("a".to_string()), Token::EOF]
    );
    assert_eq!(collect_tokens("=!"), vec![Token::ASSIGN, Token::BANG, Token::EOF]);
}

#[test]
fn bang_vs_inequality() {
    assert_eq!(collect_tokens("!="), vec![Token::NotEq, Token::EOF]);
    assert_eq!(
        collect_tokens("!x"),
        vec![Token::BANG, Token::IDENT("x".to_string()), Token::EOF]
    );
}

#[test]
fn greedy_runs_letters_then_digits() {
    assert_eq!(
        collect_tokens("foobar123"),
        vec![Token::IDENT("foobar".to_string()), Token::INT(123), Token::EOF]
    );
    assert_eq!(
        collect_tokens("123foobar"),
        vec![Token::INT(123), Token::IDENT("foobar".to_string()), Token::EOF]
    );
}

#[test]
fn keyword_takes_precedence_over_identifier() {
    assert_eq!(collect_tokens("let"), vec![Token::LET, Token::EOF]);
    assert_eq!(collect_tokens("lets"), vec![Token::IDENT("lets".to_string()), Token::EOF]);
}

#[test]
fn every_keyword_resolves() {
    assert_eq!(lookup_ident("fn"), Token::FUNCTION);
    assert_eq!(lookup_ident("let"), Token::LET);
    assert_eq!(lookup_ident("true"), Token::TRUE);
    assert_eq!(lookup_ident("false"), Token::FALSE);
    assert_eq!(lookup_ident("if"), Token::IF);
    assert_eq!(lookup_ident("else"), Token::ELSE);
    assert_eq!(lookup_ident("return"), Token::RETURN);
    assert_eq!(lookup_ident("letter"), Token::IDENT("letter".to_string()));
}

#[test]
fn whitespace_runs_are_transparent() {
    let expected = collect_tokens("let five = 5;");
    assert_eq!(collect_tokens("let  five\t=\n5 ;"), expected);
    assert_eq!(collect_tokens("  \t\nlet five =\r\n 5;\n"), expected);
    assert_eq!(collect_tokens("\u{00A0}let\u{2003}five = 5;"), expected);
}

#[test]
fn only_whitespace_is_eof() {
    assert_eq!(collect_tokens(" \t\r\n"), vec![Token::EOF]);
}

#[test]
fn illegal_then_resume() {
    assert_eq!(
        collect_tokens("@x"),
        vec![Token::ILLEGAL, Token::IDENT("x".to_string()), Token::EOF]
    );
    assert_eq!(
        collect_tokens("a#b"),
        vec![
            Token::IDENT("a".to_string()),
            Token::ILLEGAL,
            Token::IDENT("b".to_string()),
            Token::EOF
        ]
    );
}

#[test]
fn uppercase_letters_are_illegal() {
    assert_eq!(
        collect_tokens("Ab"),
        vec![Token::ILLEGAL, Token::IDENT("b".to_string()), Token::EOF]
    );
}

#[test]
fn let_statement_sequence() {
    assert_eq!(
        collect_tokens("let five = 5;"),
        vec![
            Token::LET,
            Token::IDENT("five".to_string()),
            Token::ASSIGN,
            Token::INT(5),
            Token::SEMICOLON,
            Token::EOF
        ]
    );
}

#[test]
fn comparison_sequence() {
    assert_eq!(
        collect_tokens("10 == 10; 10 != 9;"),
        vec![
            Token::INT(10),
            Token::EQ,
            Token::INT(10),
            Token::SEMICOLON,
            Token::INT(10),
            Token::NotEq,
            Token::INT(9),
            Token::SEMICOLON,
            Token::EOF
        ]
    );
}

#[test]
fn integer_at_i64_max_parses_exactly() {
    assert_eq!(
        collect_tokens("9223372036854775807"),
        vec![Token::INT(9223372036854775807), Token::EOF]
    );
}

#[test]
fn integer_overflow_defaults_to_zero() {
    assert_eq!(collect_tokens("9223372036854775808"), vec![Token::INT(0), Token::EOF]);
    assert_eq!(
        collect_tokens("99999999999999999999999999"),
        vec![Token::INT(0), Token::EOF]
    );
}

#[test]
fn leading_zeros_keep_value() {
    assert_eq!(collect_tokens("007"), vec![Token::INT(7), Token::EOF]);
    assert_eq!(collect_tokens("0"), vec![Token::INT(0), Token::EOF]);
}
