//! The abstract syntax tree that a successful parse produces: expressions,
//! statements and whole programs, together with their mathematical models.
use vstd::prelude::*;

use crate::token::Token;
use crate::token::TokenView;

verus! {

/// An arithmetic operator.  All bind left-associatively, `Power` included:
/// `2 ** 3 ** 2` parses as `(2 ** 3) ** 2`, a deliberate choice of this
/// grammar rather than the mathematical convention.
#[derive(Debug, PartialEq, Eq, Clone, Copy)]
pub enum BinaryOperator {
    Add,
    Subtract,
    Multiply,
    Divide,
    FloorDivide,
    Modulus,
    Power,
}

/// A relational or logical operator.
#[derive(Debug, PartialEq, Eq, Clone, Copy)]
pub enum CompareOperator {
    Equal,
    NotEqual,
    LessThan,
    LessEqual,
    GreaterThan,
    GreaterEqual,
    And,
    Or,
}

/// The binding tiers of the arithmetic operators, loosest first.
#[derive(Debug, PartialEq, Eq, Clone, Copy)]
pub enum PrecedenceLevel {
    AddSub,
    MulDiv,
    Power,
}

/// An expression: a strict tree, each subtree exclusively owned.
#[derive(Debug, PartialEq)]
pub enum Expression {
    Number(i64),
    StringLiteral(String),
    Variable(String),
    Boolean(bool),
    BinaryOp(Box<Expression>, BinaryOperator, Box<Expression>),
    CompareOp(Box<Expression>, CompareOperator, Box<Expression>),
}

/// The mathematical model of an [`Expression`].
pub enum ExprView {
    Number(int),
    StringLiteral(Seq<char>),
    Variable(Seq<char>),
    Boolean(bool),
    BinaryOp(Box<ExprView>, BinaryOperator, Box<ExprView>),
    CompareOp(Box<ExprView>, CompareOperator, Box<ExprView>),
}

impl View for Expression {
    type V = ExprView;

    open spec fn view(&self) -> ExprView
        decreases self,
    {
        match self {
            Expression::Number(n) => ExprView::Number(*n as int),
            Expression::StringLiteral(s) => ExprView::StringLiteral(s@),
            Expression::Variable(s) => ExprView::Variable(s@),
            Expression::Boolean(b) => ExprView::Boolean(*b),
            Expression::BinaryOp(l, op, r) => ExprView::BinaryOp(
                Box::new((**l).view()),
                *op,
                Box::new((**r).view()),
            ),
            Expression::CompareOp(l, op, r) => ExprView::CompareOp(
                Box::new((**l).view()),
                *op,
                Box::new((**r).view()),
            ),
        }
    }
}

/// A statement.  The grammar knows a single form: assigning an expression to
/// a variable.
#[derive(Debug, PartialEq)]
pub enum Stmt {
    Assignment(String, Expression),
}

/// The mathematical model of a [`Stmt`].
pub enum StmtView {
    Assignment(Seq<char>, ExprView),
}

impl View for Stmt {
    type V = StmtView;

    open spec fn view(&self) -> StmtView {
        match self {
            Stmt::Assignment(name, e) => StmtView::Assignment(name@, e@),
        }
    }
}

/// A parsed program: its statements in source order.  The order matters:
/// later assignments may refer to variables bound by earlier ones.
#[derive(Debug, PartialEq)]
pub struct Program {
    pub statements: Vec<Stmt>,
}

impl View for Program {
    type V = Seq<StmtView>;

    open spec fn view(&self) -> Seq<StmtView> {
        self.statements@.map_values(|s: Stmt| s@)
    }
}

/// A structured parse error.  The first error aborts the parse; no partial
/// program is returned.
#[derive(Debug, PartialEq)]
pub enum ParseError {
    /// A primary expression began with a token that can not start one;
    /// the offending token is carried along.
    UnexpectedToken(Token),
    /// An opened parenthesized expression was not followed by `)`.
    MismatchParenthesis,
    /// The input ended where a token was still expected.
    UnexpectedEOF,
    /// An identifier was not followed by `=`.
    InvalidAssignment,
    /// A statement did not begin with an identifier.
    InvalidIdentifier,
}

/// The mathematical model of a [`ParseError`].
pub enum ParseErrorView {
    UnexpectedToken(TokenView),
    MismatchParenthesis,
    UnexpectedEOF,
    InvalidAssignment,
    InvalidIdentifier,
}

impl View for ParseError {
    type V = ParseErrorView;

    open spec fn view(&self) -> ParseErrorView {
        match self {
            ParseError::UnexpectedToken(t) => ParseErrorView::UnexpectedToken(t@),
            ParseError::MismatchParenthesis => ParseErrorView::MismatchParenthesis,
            ParseError::UnexpectedEOF => ParseErrorView::UnexpectedEOF,
            ParseError::InvalidAssignment => ParseErrorView::InvalidAssignment,
            ParseError::InvalidIdentifier => ParseErrorView::InvalidIdentifier,
        }
    }
}

} // verus!
