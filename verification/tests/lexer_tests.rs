use monkey::lexer::Lexer;
use monkey::token::{Token, TokenLiteral, TokenType};

#[derive(Debug)]
enum TestToken {
    Token(TokenType),
    Number(i64),
    Ident(String),
}

impl PartialEq<Token> for TestToken {
    fn eq(&self, other: &Token) -> bool {
        match self {
            TestToken::Number(x) => {
                other.ty == TokenType::Number && other.literal == TokenLiteral::Num(*x)
            }
            TestToken::Ident(s) => {
                other.ty == TokenType::Ident && other.literal == TokenLiteral::Ident(s.into())
            }
            TestToken::Token(t) => other.ty == *t,
        }
    }
}

#[test]
fn lexer_test() {
    let input = r#"
let five = 5;
let ten = 10;

let add = fn(x, y) {
    x + y;
};

let result = add(five, ten);
!-/*5;
5 < 10 > 5;

if (5 < 10) {
    return true;
} else {
    return false;
}
        "#;

    let expected = vec![
        TestToken::Token(TokenType::Let),
        TestToken::Ident("five".into()),
        TestToken::Token(TokenType::Assign),
        TestToken::Number(5),
        TestToken::Token(TokenType::Semicolon),
        //
        TestToken::Token(TokenType::Let),
        TestToken::Ident("ten".into()),
        TestToken::Token(TokenType::Assign),
        TestToken::Number(10),
        TestToken::Token(TokenType::Semicolon),
        //
        TestToken::Token(TokenType::Let),
        TestToken::Ident("add".into()),
        TestToken::Token(TokenType::Assign),
        TestToken::Token(TokenType::Fn),
        TestToken::Token(TokenType::LParen),
        TestToken::Ident("x".into()),
        TestToken::Token(TokenType::Comma),
        TestToken::Ident("y".into()),
        TestToken::Token(TokenType::RParen),
        TestToken::Token(TokenType::LBrace),
        TestToken::Ident("x".into()),
        TestToken::Token(TokenType::Plus),
        TestToken::Ident("y".into()),
        TestToken::Token(TokenType::Semicolon),
        TestToken::Token(TokenType::RBrace),
        TestToken::Token(TokenType::Semicolon),
        //
        TestToken::Token(TokenType::Let),
        TestToken::Ident("result".into()),
        TestToken::Token(TokenType::Assign),
        TestToken::Ident("add".into()),
        TestToken::Token(TokenType::LParen),
        TestToken::Ident("five".into()),
        TestToken::Token(TokenType::Comma),
        TestToken::Ident("ten".into()),
        TestToken::Token(TokenType::RParen),
        TestToken::Token(TokenType::Semicolon),
        //
        TestToken::Token(TokenType::Bang),
        TestToken::Token(TokenType::Minus),
        TestToken::Token(TokenType::Slash),
        TestToken::Token(TokenType::Star),
        TestToken::Number(5),
        TestToken::Token(TokenType::Semicolon),
        TestToken::Number(5),
        TestToken::Token(TokenType::Lt),
        TestToken::Number(10),
        TestToken::Token(TokenType::Gt),
        TestToken::Number(5),
        TestToken::Token(TokenType::Semicolon),
        //
        TestToken::Token(TokenType::If),
        TestToken::Token(TokenType::LParen),
        TestToken::Number(5),
        TestToken::Token(TokenType::Lt),
        TestToken::Number(10),
        TestToken::Token(TokenType::RParen),
        TestToken::Token(TokenType::LBrace),
        TestToken::Token(TokenType::Return),
        TestToken::Token(TokenType::True),
        TestToken::Token(TokenType::Semicolon),
        TestToken::Token(TokenType::RBrace),
        TestToken::Token(TokenType::Else),
        TestToken::Token(TokenType::LBrace),
        TestToken::Token(TokenType::Return),
        TestToken::Token(TokenType::False),
        TestToken::Token(TokenType::Semicolon),
        TestToken::Token(TokenType::RBrace),
    ];

    let mut lexer = Lexer::new(input.into());

    for (i, e) in expected.into_iter().enumerate() {
        assert_eq!(e, lexer.next(), "Invalid token at index {}", i);
    }
}
