use monke::lexer::Lexer;
use monke::token::Token;

fn lex_all(input: &str) -> Vec<Token> {
    let mut lexer = Lexer::new(String::from(input));
    let mut out = Vec::new();
    while let Some(t) = lexer.next_token() {
        out.push(t);
    }
    out
}

#[test]
fn lexer_token_test() {
    let tokens = lex_all("let five = 5;\nif (five < 10) { !true } else { five != 9 }");
    let expected = vec![
        Token::Let,
        Token::Ident(String::from("five")),
        Token::Assign,
        Token::Int(String::from("5")),
        Token::Semicolon,
        Token::If,
        Token::LParen,
        Token::Ident(String::from("five")),
        Token::Lt,
        Token::Int(String::from("10")),
        Token::RParen,
        Token::LBrace,
        Token::Bang,
        Token::True,
        Token::RBrace,
        Token::Else,
        Token::LBrace,
        Token::Ident(String::from("five")),
        Token::Ne,
        Token::Int(String::from("9")),
        Token::RBrace,
    ];
    assert_eq!(tokens, expected);
}

#[test]
fn lexer_operator_test() {
    let tokens = lex_all("= == ! != + - * / < > ; ( ) { } ?");
    let expected = vec![
        Token::Assign,
        Token::Eq,
        Token::Bang,
        Token::Ne,
        Token::Plus,
        Token::Minus,
        Token::Asterisk,
        Token::Slash,
        Token::Lt,
        Token::Gt,
        Token::Semicolon,
        Token::LParen,
        Token::RParen,
        Token::LBrace,
        Token::RBrace,
        Token::Illegal,
    ];
    assert_eq!(tokens, expected);
}
