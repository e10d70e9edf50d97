use l9_vm::ast::{Expression, Operation, Statement};
use l9_vm::lexer::{SourceToken, Token};
use l9_vm::parser::{Parser, ParsingError};
use l9_vm::source::Position;

fn num(x: f64) -> u64 {
    x.to_bits()
}

fn ident(name: &str) -> Token {
    Token::Identifier(name.to_string())
}

fn at(kind: Token, line: usize, column: usize) -> SourceToken {
    SourceToken::new(kind, Position::new(line, column))
}

fn parser_of(kinds: Vec<Token>) -> Parser {
    Parser::new(kinds.into_iter().map(SourceToken::from).collect())
}

#[test]
fn number_literal() {
    let tokens = vec![Token::Number(num(42.0)).into()];
    let mut parser = Parser::new(tokens);

    let ast = parser.expression(0).unwrap();

    assert_eq!(ast, Expression::NumberLiteral(num(42.0)));
}

#[test]
fn addition_expression() {
    let tokens = vec![
        Token::Number(num(7.0)).into(),
        Token::Plus.into(),
        Token::Number(num(8.0)).into(),
    ];
    let mut parser = Parser::new(tokens);

    let ast = parser.expression(0).unwrap();

    assert_eq!(
        ast,
        Expression::binary(
            Operation::Add,
            Expression::number(num(7.0)),
            Expression::number(num(8.0))
        )
    );
}

#[test]
fn same_priority_operation_expression() {
    let tokens = vec![
        Token::Number(num(5.0)).into(),
        Token::Plus.into(),
        Token::Number(num(10.0)).into(),
        Token::Minus.into(),
        Token::Number(num(15.0)).into(),
    ];
    let mut parser = Parser::new(tokens);

    let ast = parser.expression(0).unwrap();

    assert_eq!(
        ast,
        Expression::binary(
            Operation::Sub,
            Expression::binary(
                Operation::Add,
                Expression::number(num(5.0)),
                Expression::number(num(10.0)),
            ),
            Expression::number(num(15.0)),
        )
    );
}

#[test]
fn missing_rhs_infix_operation() {
    let tokens = vec![
        SourceToken::from(Token::Number(num(7.0))),
        SourceToken::from(Token::Plus),
    ];
    let mut parser = Parser::new(tokens);

    let parsing_error = parser.expression(0);

    assert!(matches!(
        parsing_error,
        Err(ParsingError::MissingOperand(_))
    ));
}

#[test]
fn print_variable() {
    let tokens = vec![
        Token::Print.into(),
        Token::Identifier("x".to_string()).into(),
        Token::Semicolon.into(),
    ];
    let mut parser = Parser::new(tokens);

    let ast = parser.statement().unwrap();

    assert_eq!(ast, Statement::Print(Expression::Variable("x".to_string())));
}

#[test]
fn multiplication_binds_tighter_than_addition() {
    let mut parser = parser_of(vec![
        Token::Number(num(1.0)),
        Token::Plus,
        Token::Number(num(2.0)),
        Token::Star,
        Token::Number(num(3.0)),
    ]);
    assert_eq!(
        parser.expression(0).unwrap(),
        Expression::binary(
            Operation::Add,
            Expression::number(num(1.0)),
            Expression::binary(
                Operation::Mul,
                Expression::number(num(2.0)),
                Expression::number(num(3.0)),
            ),
        )
    );
}

#[test]
fn comparison_binds_loosest() {
    let mut parser = parser_of(vec![
        ident("a"),
        Token::Less,
        ident("b"),
        Token::Minus,
        Token::Number(num(1.0)),
    ]);
    assert_eq!(
        parser.expression(0).unwrap(),
        Expression::binary(
            Operation::Less,
            Expression::Variable("a".to_string()),
            Expression::binary(
                Operation::Sub,
                Expression::Variable("b".to_string()),
                Expression::number(num(1.0)),
            ),
        )
    );
}

#[test]
fn equal_comparisons_group_to_the_left() {
    let mut parser = parser_of(vec![
        Token::True,
        Token::EqualEqual,
        Token::False,
        Token::BangEqual,
        Token::True,
    ]);
    assert_eq!(
        parser.expression(0).unwrap(),
        Expression::binary(
            Operation::NotEqual,
            Expression::binary(
                Operation::Equal,
                Expression::BooleanLiteral(true),
                Expression::BooleanLiteral(false),
            ),
            Expression::BooleanLiteral(true),
        )
    );
}

#[test]
fn prefix_minus_binds_tightest() {
    let mut parser = parser_of(vec![
        Token::Minus,
        Token::Number(num(2.0)),
        Token::Star,
        Token::Number(num(3.0)),
    ]);
    assert_eq!(
        parser.expression(0).unwrap(),
        Expression::binary(
            Operation::Mul,
            Expression::unary(Operation::Sub, Expression::number(num(2.0))),
            Expression::number(num(3.0)),
        )
    );
}

#[test]
fn bang_negates() {
    let mut parser = parser_of(vec![Token::Bang, Token::True]);
    assert_eq!(
        parser.expression(0).unwrap(),
        Expression::unary(Operation::Not, Expression::BooleanLiteral(true))
    );
}

#[test]
fn parentheses_group() {
    let mut parser = parser_of(vec![
        Token::LParen,
        Token::Number(num(1.0)),
        Token::Plus,
        Token::Number(num(2.0)),
        Token::RParen,
        Token::Star,
        Token::Number(num(3.0)),
    ]);
    assert_eq!(
        parser.expression(0).unwrap(),
        Expression::binary(
            Operation::Mul,
            Expression::binary(
                Operation::Add,
                Expression::number(num(1.0)),
                Expression::number(num(2.0)),
            ),
            Expression::number(num(3.0)),
        )
    );
}

#[test]
fn missing_closing_parenthesis() {
    let tokens = vec![
        at(Token::LParen, 2, 5),
        at(Token::Number(num(1.0)), 2, 6),
        at(Token::Semicolon, 2, 7),
    ];
    let mut parser = Parser::new(tokens);
    assert_eq!(
        parser.expression(0),
        Err(ParsingError::MissingClosingParentheses(Position::new(2, 5)))
    );
}

#[test]
fn missing_operand_is_at_the_operator() {
    let tokens = vec![
        at(Token::Number(num(7.0)), 1, 1),
        at(Token::Plus, 1, 3),
        at(Token::Semicolon, 1, 4),
    ];
    let mut parser = Parser::new(tokens);
    assert_eq!(
        parser.expression(0),
        Err(ParsingError::MissingOperand(Position::new(1, 3)))
    );
}

#[test]
fn unknown_operation_between_operands() {
    let tokens = vec![at(Token::Number(num(1.0)), 3, 1), at(Token::Number(num(2.0)), 3, 3)];
    let mut parser = Parser::new(tokens);
    assert_eq!(
        parser.expression(0),
        Err(ParsingError::UnknownOperation(Position::new(3, 3)))
    );
}

#[test]
fn unexpected_token_in_expression() {
    let tokens = vec![at(Token::Star, 4, 2)];
    let mut parser = Parser::new(tokens);
    assert_eq!(
        parser.expression(0),
        Err(ParsingError::UnexpectedToken(Token::Star, Position::new(4, 2)))
    );
}

#[test]
fn empty_expression_reads_end_of_file() {
    let mut parser = Parser::new(vec![]);
    assert_eq!(
        parser.expression(0),
        Err(ParsingError::UnexpectedToken(Token::EndOfFile, Position::new(0, 0)))
    );
}

#[test]
fn unknown_statement() {
    let tokens = vec![at(Token::Number(num(1.0)), 5, 9)];
    let mut parser = Parser::new(tokens);
    assert_eq!(parser.parse(), Err(ParsingError::Unknown(Position::new(5, 9))));
}

#[test]
fn declaration_with_and_without_value() {
    let mut parser = parser_of(vec![
        Token::Let,
        ident("x"),
        Token::Equal,
        Token::Number(num(1.0)),
        Token::Semicolon,
        Token::Let,
        ident("y"),
        Token::Semicolon,
    ]);
    let program = parser.parse_program().unwrap();
    assert_eq!(
        program.statements,
        vec![
            Statement::Declaration("x".to_string(), Some(Expression::number(num(1.0)))),
            Statement::Declaration("y".to_string(), None),
        ]
    );
}

#[test]
fn declaration_needs_a_name() {
    let tokens = vec![
        at(Token::Let, 1, 1),
        at(Token::Number(num(1.0)), 1, 5),
        at(Token::Semicolon, 1, 6),
    ];
    let mut parser = Parser::new(tokens);
    assert_eq!(
        parser.parse(),
        Err(ParsingError::UnexpectedToken(Token::Number(num(1.0)), Position::new(1, 5)))
    );
}

#[test]
fn missing_semicolon_wins_over_declaration_error() {
    let tokens = vec![
        at(Token::Let, 1, 1),
        at(Token::True, 1, 5),
        at(Token::True, 1, 9),
    ];
    let mut parser = Parser::new(tokens);
    assert_eq!(
        parser.parse(),
        Err(ParsingError::UnexpectedToken(Token::True, Position::new(1, 9)))
    );
}

#[test]
fn assignment() {
    let mut parser = parser_of(vec![
        ident("x"),
        Token::Equal,
        ident("x"),
        Token::Plus,
        Token::Number(num(1.0)),
        Token::Semicolon,
    ]);
    assert_eq!(
        parser.parse().unwrap(),
        Statement::Assignment(
            "x".to_string(),
            Expression::binary(
                Operation::Add,
                Expression::Variable("x".to_string()),
                Expression::number(num(1.0)),
            )
        )
    );
}

#[test]
fn assignment_needs_equal_sign() {
    let tokens = vec![
        at(ident("x"), 7, 3),
        at(Token::Plus, 7, 5),
        at(Token::Semicolon, 7, 6),
    ];
    let mut parser = Parser::new(tokens);
    assert_eq!(parser.parse(), Err(ParsingError::Unknown(Position::new(7, 3))));
}

#[test]
fn if_else_and_block() {
    let mut parser = parser_of(vec![
        Token::If,
        Token::LParen,
        ident("c"),
        Token::RParen,
        Token::LeftCurly,
        Token::Print,
        Token::Number(num(1.0)),
        Token::Semicolon,
        Token::RightCurly,
        Token::Else,
        Token::Print,
        Token::Number(num(2.0)),
        Token::Semicolon,
    ]);
    assert_eq!(
        parser.parse_program().unwrap().statements,
        vec![Statement::If(
            Expression::Variable("c".to_string()),
            Box::new(Statement::Block(vec![Statement::Print(Expression::number(num(1.0)))])),
            Some(Box::new(Statement::Print(Expression::number(num(2.0))))),
        )]
    );
}

#[test]
fn if_without_else() {
    let mut parser = parser_of(vec![
        Token::If,
        Token::LParen,
        Token::True,
        Token::RParen,
        Token::Print,
        Token::False,
        Token::Semicolon,
    ]);
    assert_eq!(
        parser.parse().unwrap(),
        Statement::If(
            Expression::BooleanLiteral(true),
            Box::new(Statement::Print(Expression::BooleanLiteral(false))),
            None,
        )
    );
}

#[test]
fn while_loop() {
    let mut parser = parser_of(vec![
        Token::While,
        Token::LParen,
        ident("i"),
        Token::Less,
        Token::Number(num(3.0)),
        Token::RParen,
        Token::LeftCurly,
        Token::RightCurly,
    ]);
    assert_eq!(
        parser.parse().unwrap(),
        Statement::While(
            Expression::binary(
                Operation::Less,
                Expression::Variable("i".to_string()),
                Expression::number(num(3.0)),
            ),
            Box::new(Statement::Block(vec![])),
        )
    );
}

#[test]
fn unclosed_block() {
    let mut parser = parser_of(vec![Token::LeftCurly, Token::Print, Token::True, Token::Semicolon]);
    assert_eq!(
        parser.parse(),
        Err(ParsingError::UnexpectedToken(Token::EndOfFile, Position::new(0, 0)))
    );
}

#[test]
fn condition_needs_parenthesis() {
    let tokens = vec![at(Token::While, 1, 1), at(Token::True, 1, 7)];
    let mut parser = Parser::new(tokens);
    assert_eq!(
        parser.parse(),
        Err(ParsingError::UnexpectedToken(Token::True, Position::new(1, 7)))
    );
}

#[test]
fn program_stops_at_first_error() {
    let mut parser = parser_of(vec![
        Token::Print,
        Token::True,
        Token::Semicolon,
        Token::Print,
        Token::True,
    ]);
    assert_eq!(
        parser.parse_program(),
        Err(ParsingError::UnexpectedToken(Token::EndOfFile, Position::new(0, 0)))
    );
}

#[test]
fn empty_program() {
    let mut parser = Parser::new(vec![]);
    assert_eq!(parser.parse_program().unwrap().statements, vec![]);
}

#[test]
fn written_expression_reads_back() {
    // ((1 + -x) / !false) followed by `;`
    let expected = Expression::binary(
        Operation::Div,
        Expression::binary(
            Operation::Add,
            Expression::number(num(1.0)),
            Expression::unary(Operation::Sub, Expression::Variable("x".to_string())),
        ),
        Expression::unary(Operation::Not, Expression::BooleanLiteral(false)),
    );
    let mut parser = parser_of(vec![
        Token::LParen,
        Token::LParen,
        Token::Number(num(1.0)),
        Token::Plus,
        Token::Minus,
        ident("x"),
        Token::RParen,
        Token::Slash,
        Token::Bang,
        Token::False,
        Token::RParen,
        Token::Semicolon,
    ]);
    assert_eq!(parser.expression(0).unwrap(), expected);
    assert_eq!(parser.parse(), Err(ParsingError::Unknown(Position::new(0, 0))));
}
