use reflex::{Action, Lexer, PatternError};

#[derive(Copy, Clone, PartialEq, Debug)]
enum Token {
    Number(f64),
    OpAdd,
    OpSub,
    OpMul,
    OpDiv,
    OpPow,
    ParenL,
    ParenR,
}

struct NumberAction;

impl Action<Token> for NumberAction {
    fn apply(&self, matched: &str) -> Option<Token> {
        Some(Token::Number(matched.parse().unwrap()))
    }
}

#[test]
fn calculator() -> Result<(), PatternError> {
    let program = "(3.45 + 3) * (-7 - .8) ^ (1.3 / -.5)".to_string();
    let expected = vec![
        Token::ParenL,
        Token::Number(3.45),
        Token::OpAdd,
        Token::Number(3.0),
        Token::ParenR,
        Token::OpMul,
        Token::ParenL,
        Token::Number(-7.0),
        Token::OpSub,
        Token::Number(0.8),
        Token::ParenR,
        Token::OpPow,
        Token::ParenL,
        Token::Number(1.3),
        Token::OpDiv,
        Token::Number(-0.5),
        Token::ParenR,
    ];

    let mut lexer = Lexer::new();
    lexer.rule(r"-?[0-9]*\.?[0-9]+", NumberAction)?;
    lexer.rule_simple(r"\+", Token::OpAdd)?;
    lexer.rule_simple(r"-", Token::OpSub)?;
    lexer.rule_simple(r"\*", Token::OpMul)?;
    lexer.rule_simple(r"/", Token::OpDiv)?;
    lexer.rule_simple(r"\^", Token::OpPow)?;
    lexer.rule_simple(r"\(", Token::ParenL)?;
    lexer.rule_simple(r"\)", Token::ParenR)?;
    lexer.rule_noop(r"(?s)\s+")?;

    let mut i = 0;
    let mut stream = lexer.tokenize(&program);
    while let Some(token) = stream.next() {
        assert_eq!(token.unwrap(), expected[i]);
        i += 1;
    }
    assert_eq!(i, expected.len());

    Ok(())
}
