use minilang::BinaryOperator;
use minilang::CompareOperator;
use minilang::Expression;
use minilang::ParseError;
use minilang::Program;
use minilang::Stmt;
use minilang::Token;
use minilang::parse_boolean;
use minilang::parse_comparison;
use minilang::parse_program;
use minilang::tokenize;

fn parsed(input: &str) -> Program {
    match parse_program(&tokenize(input)) {
        Ok(program) => program,
        Err(e) => panic!("failed to parse program: {:?}", e),
    }
}

fn parse_error(input: &str) -> ParseError {
    match parse_program(&tokenize(input)) {
        Ok(program) => panic!("unexpected parse: {:?}", program),
        Err(e) => e,
    }
}

#[test]
fn single_token_assignments() {
    assert_eq!(
        parsed("x = 7").statements,
        vec![Stmt::Assignment("x".to_string(), Expression::Number(7))]
    );
    assert_eq!(
        parsed("x = y").statements,
        vec![Stmt::Assignment(
            "x".to_string(),
            Expression::Variable("y".to_string())
        )]
    );
    assert_eq!(
        parsed("x = \"hi\"").statements,
        vec![Stmt::Assignment(
            "x".to_string(),
            Expression::StringLiteral("hi".to_string())
        )]
    );
    assert_eq!(
        parsed("x = True").statements,
        vec![Stmt::Assignment("x".to_string(), Expression::Boolean(true))]
    );
}

#[test]
fn multiplication_binds_tighter_than_addition() {
    assert_eq!(
        parsed("x = 1 + 2 * 3").statements,
        vec![Stmt::Assignment(
            "x".to_string(),
            Expression::BinaryOp(
                Box::new(Expression::Number(1)),
                BinaryOperator::Add,
                Box::new(Expression::BinaryOp(
                    Box::new(Expression::Number(2)),
                    BinaryOperator::Multiply,
                    Box::new(Expression::Number(3)),
                )),
            ),
        )]
    );
}

#[test]
fn subtraction_is_left_associative() {
    assert_eq!(
        parsed("x = 1 - 2 - 3").statements,
        vec![Stmt::Assignment(
            "x".to_string(),
            Expression::BinaryOp(
                Box::new(Expression::BinaryOp(
                    Box::new(Expression::Number(1)),
                    BinaryOperator::Subtract,
                    Box::new(Expression::Number(2)),
                )),
                BinaryOperator::Subtract,
                Box::new(Expression::Number(3)),
            ),
        )]
    );
}

#[test]
fn power_is_left_associative() {
    assert_eq!(
        parsed("x = 2 ** 3 ** 2").statements,
        vec![Stmt::Assignment(
            "x".to_string(),
            Expression::BinaryOp(
                Box::new(Expression::BinaryOp(
                    Box::new(Expression::Number(2)),
                    BinaryOperator::Power,
                    Box::new(Expression::Number(3)),
                )),
                BinaryOperator::Power,
                Box::new(Expression::Number(2)),
            ),
        )]
    );
}

#[test]
fn unary_minus_disambiguation() {
    assert_eq!(
        parsed("x = 1 * -3").statements,
        vec![Stmt::Assignment(
            "x".to_string(),
            Expression::BinaryOp(
                Box::new(Expression::Number(1)),
                BinaryOperator::Multiply,
                Box::new(Expression::Number(-3)),
            ),
        )]
    );
    assert_eq!(
        parsed("x = 1 - 3").statements,
        vec![Stmt::Assignment(
            "x".to_string(),
            Expression::BinaryOp(
                Box::new(Expression::Number(1)),
                BinaryOperator::Subtract,
                Box::new(Expression::Number(3)),
            ),
        )]
    );
}

#[test]
fn comparison_looser_than_arithmetic() {
    assert_eq!(
        parsed("x = 1 + 2 == 3").statements,
        vec![Stmt::Assignment(
            "x".to_string(),
            Expression::CompareOp(
                Box::new(Expression::BinaryOp(
                    Box::new(Expression::Number(1)),
                    BinaryOperator::Add,
                    Box::new(Expression::Number(2)),
                )),
                CompareOperator::Equal,
                Box::new(Expression::Number(3)),
            ),
        )]
    );
}

#[test]
fn logical_and_binds_tighter_than_or() {
    assert_eq!(
        parsed("x = 1 || 0 && 2").statements,
        vec![Stmt::Assignment(
            "x".to_string(),
            Expression::CompareOp(
                Box::new(Expression::Number(1)),
                CompareOperator::Or,
                Box::new(Expression::CompareOp(
                    Box::new(Expression::Number(0)),
                    CompareOperator::And,
                    Box::new(Expression::Number(2)),
                )),
            ),
        )]
    );
}

#[test]
fn close_paren_where_a_primary_is_expected() {
    assert_eq!(
        parse_error("x = )"),
        ParseError::UnexpectedToken(Token::CloseParen)
    );
}

#[test]
fn missing_right_hand_side() {
    assert_eq!(parse_error("x ="), ParseError::UnexpectedToken(Token::EOF));
}

#[test]
fn missing_assign_sign() {
    assert_eq!(parse_error("x 1"), ParseError::InvalidAssignment);
}

#[test]
fn statement_must_begin_with_an_identifier() {
    assert_eq!(parse_error("1 = 2"), ParseError::InvalidIdentifier);
}

#[test]
fn unclosed_parenthesis() {
    assert_eq!(parse_error("x = (1 + 2"), ParseError::MismatchParenthesis);
}

#[test]
fn empty_program_parses_to_no_statements() {
    assert_eq!(parsed("").statements, vec![]);
}

#[test]
fn expression_tiers_are_callable_directly() {
    let tokens = tokenize("1 + 2 == 3");
    let mut position: usize = 0;
    let expr = parse_comparison(&tokens, &mut position).expect("comparison should parse");
    assert_eq!(
        expr,
        Expression::CompareOp(
            Box::new(Expression::BinaryOp(
                Box::new(Expression::Number(1)),
                BinaryOperator::Add,
                Box::new(Expression::Number(2)),
            )),
            CompareOperator::Equal,
            Box::new(Expression::Number(3)),
        )
    );
    assert_eq!(position, 5);

    let tokens = tokenize("0 || 1");
    let mut position: usize = 0;
    let expr = parse_boolean(&tokens, &mut position).expect("boolean should parse");
    assert_eq!(
        expr,
        Expression::CompareOp(
            Box::new(Expression::Number(0)),
            CompareOperator::Or,
            Box::new(Expression::Number(1)),
        )
    );
    assert_eq!(position, 3);
}
