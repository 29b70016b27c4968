//! The parser: recursive descent over a token sequence, one function per
//! precedence tier, each proved to compute exactly what the matching
//! [`crate::grammar`] spec function describes.
//!
//! The cursor is a plain index into the token sequence; peeking is reading
//! the token at the index (the `EOF` sentinel when past the end), advancing
//! is incrementing the index.  The cursor only moves forward: the grammar
//! needs no backtracking.  The first error aborts the whole parse; no
//! partial program is returned.
use vstd::prelude::*;
use vstd::string::StringExecFns;

use crate::ast::BinaryOperator;
use crate::ast::CompareOperator;
use crate::ast::ExprView;
use crate::ast::Expression;
use crate::ast::ParseError;
use crate::ast::ParseErrorView;
use crate::ast::Program;
use crate::ast::Stmt;
use crate::ast::StmtView;
use crate::grammar::add_op_at;
use crate::grammar::and_op_at;
use crate::grammar::cmp_op_at;
use crate::grammar::mul_op_at;
use crate::grammar::or_op_at;
use crate::grammar::pow_op_at;
use crate::grammar::spec_cur;
use crate::grammar::spec_parse_add_sub;
use crate::grammar::spec_parse_add_sub_rest;
use crate::grammar::spec_parse_assignment;
use crate::grammar::spec_parse_boolean;
use crate::grammar::spec_parse_boolean_rest;
use crate::grammar::spec_parse_comparison;
use crate::grammar::spec_parse_comparison_rest;
use crate::grammar::spec_parse_expression;
use crate::grammar::spec_parse_factor;
use crate::grammar::spec_parse_factor_rest;
use crate::grammar::spec_parse_logical_and;
use crate::grammar::spec_parse_logical_and_rest;
use crate::grammar::spec_parse_power;
use crate::grammar::spec_parse_power_rest;
use crate::grammar::spec_parse_primary;
use crate::grammar::spec_parse_program;
use crate::grammar::spec_parse_stmts;
use crate::token::Token;
use crate::token::TokenView;
use crate::token::dup_token;
use crate::token::toks_view;

verus! {

/// The executable outcome `r`, together with the final cursor `p`, agrees
/// with the spec-level outcome `sr`.
pub open spec fn expr_outcome(
    r: Result<Expression, ParseError>,
    sr: (Result<ExprView, ParseErrorView>, int),
    p: int,
) -> bool {
    &&& p == sr.1
    &&& match r {
        Ok(e) => sr.0 == Ok::<ExprView, ParseErrorView>(e@),
        Err(pe) => sr.0 == Err::<ExprView, ParseErrorView>(pe@),
    }
}

/// As [`expr_outcome`], for statements.
pub open spec fn stmt_outcome(
    r: Result<Stmt, ParseError>,
    sr: (Result<StmtView, ParseErrorView>, int),
    p: int,
) -> bool {
    &&& p == sr.1
    &&& match r {
        Ok(st) => sr.0 == Ok::<StmtView, ParseErrorView>(st@),
        Err(pe) => sr.0 == Err::<StmtView, ParseErrorView>(pe@),
    }
}

proof fn lemma_vec_len_bound(tokens: &Vec<Token>)
    ensures
        tokens@.len() <= usize::MAX,
{
    assert(tokens@.len() == vstd::std_specs::vec::spec_vec_len(tokens));
}

/// The token under the cursor; the `EOF` sentinel when the cursor is past
/// the end of the sequence.
fn current_token<'a>(tokens: &'a Vec<Token>, position: usize) -> (t: &'a Token)
    ensures
        t@ == spec_cur(toks_view(tokens@), position as int),
{
    proof {
        if (position as int) < tokens@.len() {
            assert(toks_view(tokens@)[position as int] == tokens@[position as int]@);
        }
    }
    if position < tokens.len() {
        &tokens[position]
    } else {
        &Token::EOF
    }
}

/// Moves the cursor one token forward.
fn advance(position: &mut usize)
    requires
        *old(position) < usize::MAX,
    ensures
        *final(position) == *old(position) + 1,
{
    *position += 1;
}

/// The power operator under the cursor, if any.
fn match_pow_op(tokens: &Vec<Token>, pos: usize) -> (r: Option<BinaryOperator>)
    ensures
        r == pow_op_at(toks_view(tokens@), pos as int),
{
    proof {
        if (pos as int) < tokens@.len() {
            assert(toks_view(tokens@)[pos as int] == tokens@[pos as int]@);
        }
    }
    if pos < tokens.len() {
        match &tokens[pos] {
            Token::Operator(s) => if *s == String::from_str("**") {
                Some(BinaryOperator::Power)
            } else {
                None
            },
            _ => None,
        }
    } else {
        None
    }
}

/// The multiplicative operator under the cursor, if any.
fn match_mul_op(tokens: &Vec<Token>, pos: usize) -> (r: Option<BinaryOperator>)
    ensures
        r == mul_op_at(toks_view(tokens@), pos as int),
{
    proof {
        if (pos as int) < tokens@.len() {
            assert(toks_view(tokens@)[pos as int] == tokens@[pos as int]@);
        }
    }
    if pos < tokens.len() {
        match &tokens[pos] {
            Token::Operator(s) => if *s == String::from_str("*") {
                Some(BinaryOperator::Multiply)
            } else if *s == String::from_str("/") {
                Some(BinaryOperator::Divide)
            } else if *s == String::from_str("//") {
                Some(BinaryOperator::FloorDivide)
            } else if *s == String::from_str("%") {
                Some(BinaryOperator::Modulus)
            } else {
                None
            },
            _ => None,
        }
    } else {
        None
    }
}

/// The additive operator under the cursor, if any.
fn match_add_op(tokens: &Vec<Token>, pos: usize) -> (r: Option<BinaryOperator>)
    ensures
        r == add_op_at(toks_view(tokens@), pos as int),
{
    proof {
        if (pos as int) < tokens@.len() {
            assert(toks_view(tokens@)[pos as int] == tokens@[pos as int]@);
        }
    }
    if pos < tokens.len() {
        match &tokens[pos] {
            Token::Operator(s) => if *s == String::from_str("+") {
                Some(BinaryOperator::Add)
            } else if *s == String::from_str("-") {
                Some(BinaryOperator::Subtract)
            } else {
                None
            },
            _ => None,
        }
    } else {
        None
    }
}

/// The comparison operator under the cursor, if any.
fn match_cmp_op(tokens: &Vec<Token>, pos: usize) -> (r: Option<CompareOperator>)
    ensures
        r == cmp_op_at(toks_view(tokens@), pos as int),
{
    proof {
        if (pos as int) < tokens@.len() {
            assert(toks_view(tokens@)[pos as int] == tokens@[pos as int]@);
        }
    }
    if pos < tokens.len() {
        match &tokens[pos] {
            Token::Operator(s) => if *s == String::from_str("==") {
                Some(CompareOperator::Equal)
            } else if *s == String::from_str("!=") {
                Some(CompareOperator::NotEqual)
            } else if *s == String::from_str("<") {
                Some(CompareOperator::LessThan)
            } else if *s == String::from_str("<=") {
                Some(CompareOperator::LessEqual)
            } else if *s == String::from_str(">") {
                Some(CompareOperator::GreaterThan)
            } else if *s == String::from_str(">=") {
                Some(CompareOperator::GreaterEqual)
            } else {
                None
            },
            _ => None,
        }
    } else {
        None
    }
}

/// The logical-and operator under the cursor, if any.
fn match_and_op(tokens: &Vec<Token>, pos: usize) -> (r: Option<CompareOperator>)
    ensures
        r == and_op_at(toks_view(tokens@), pos as int),
{
    proof {
        if (pos as int) < tokens@.len() {
            assert(toks_view(tokens@)[pos as int] == tokens@[pos as int]@);
        }
    }
    if pos < tokens.len() {
        match &tokens[pos] {
            Token::Operator(s) => if *s == String::from_str("&&") {
                Some(CompareOperator::And)
            } else {
                None
            },
            _ => None,
        }
    } else {
        None
    }
}

/// The logical-or operator under the cursor, if any.
fn match_or_op(tokens: &Vec<Token>, pos: usize) -> (r: Option<CompareOperator>)
    ensures
        r == or_op_at(toks_view(tokens@), pos as int),
{
    proof {
        if (pos as int) < tokens@.len() {
            assert(toks_view(tokens@)[pos as int] == tokens@[pos as int]@);
        }
    }
    if pos < tokens.len() {
        match &tokens[pos] {
            Token::Operator(s) => if *s == String::from_str("||") {
                Some(CompareOperator::Or)
            } else {
                None
            },
            _ => None,
        }
    } else {
        None
    }
}

/// A primary expression: a literal, a variable, or a parenthesized
/// expression.
fn parse_primary(tokens: &Vec<Token>, position: &mut usize) -> (r: Result<Expression, ParseError>)
    ensures
        expr_outcome(
            r,
            spec_parse_primary(toks_view(tokens@), *old(position) as int),
            *final(position) as int,
        ),
        *old(position) <= *final(position),
        r is Ok ==> *old(position) < *final(position) <= tokens@.len(),
    decreases tokens@.len() - *old(position), 0int,
{
    let ghost t = toks_view(tokens@);
    let ghost pos0 = *position as int;
    proof {
        lemma_vec_len_bound(tokens);
    }
    let tok = current_token(tokens, *position);
    match tok {
        Token::Number(n) => {
            let v: i64 = *n;
            advance(position);
            Ok(Expression::Number(v))
        },
        Token::Identifier(name) => {
            let nm = name.clone();
            advance(position);
            Ok(Expression::Variable(nm))
        },
        Token::StringLiteral(text) => {
            let tx = text.clone();
            advance(position);
            Ok(Expression::StringLiteral(tx))
        },
        Token::Boolean(b) => {
            let v: bool = *b;
            advance(position);
            Ok(Expression::Boolean(v))
        },
        Token::OpenParen => {
            advance(position);
            let inner = match parse_expression(tokens, position) {
                Ok(e) => e,
                Err(e) => {
                    return Err(e);
                },
            };
            let tok2 = current_token(tokens, *position);
            match tok2 {
                Token::CloseParen => {
                    advance(position);
                    Ok(inner)
                },
                _ => Err(ParseError::MismatchParenthesis),
            }
        },
        _ => Err(ParseError::UnexpectedToken(dup_token(tok))),
    }
}

/// The power tier: `primary ("**" primary)*`, folded left.
#[verifier::loop_isolation(false)]
fn parse_power(tokens: &Vec<Token>, position: &mut usize) -> (r: Result<Expression, ParseError>)
    ensures
        expr_outcome(
            r,
            spec_parse_power(toks_view(tokens@), *old(position) as int),
            *final(position) as int,
        ),
        *old(position) <= *final(position),
        r is Ok ==> *old(position) < *final(position) <= tokens@.len(),
    decreases tokens@.len() - *old(position), 2int,
{
    let ghost t = toks_view(tokens@);
    let ghost pos0 = *position as int;
    proof {
        lemma_vec_len_bound(tokens);
    }
    let mut pos: usize = *position;
    let mut expr = match parse_primary(tokens, &mut pos) {
        Ok(e) => e,
        Err(e) => {
            *position = pos;
            return Err(e);
        },
    };
    let ghost target = spec_parse_power(t, pos0);
    let mut next_op = match_pow_op(tokens, pos);
    while next_op.is_some()
        invariant
            pos0 < pos <= tokens@.len(),
            next_op == pow_op_at(t, pos as int),
            target == spec_parse_power_rest(t, pos as int, expr@),
        decreases tokens@.len() - pos,
    {
        let op = next_op.unwrap();
        pos = pos + 1;
        let right = match parse_primary(tokens, &mut pos) {
            Ok(e) => e,
            Err(e) => {
                *position = pos;
                return Err(e);
            },
        };
        expr = Expression::BinaryOp(Box::new(expr), op, Box::new(right));
        next_op = match_pow_op(tokens, pos);
    }
    *position = pos;
    Ok(expr)
}

/// The multiplicative tier: `power (("*" | "/" | "//" | "%") power)*`,
/// folded left.
#[verifier::loop_isolation(false)]
fn parse_factor(tokens: &Vec<Token>, position: &mut usize) -> (r: Result<Expression, ParseError>)
    ensures
        expr_outcome(
            r,
            spec_parse_factor(toks_view(tokens@), *old(position) as int),
            *final(position) as int,
        ),
        *old(position) <= *final(position),
        r is Ok ==> *old(position) < *final(position) <= tokens@.len(),
    decreases tokens@.len() - *old(position), 4int,
{
    let ghost t = toks_view(tokens@);
    let ghost pos0 = *position as int;
    proof {
        lemma_vec_len_bound(tokens);
    }
    let mut pos: usize = *position;
    let mut expr = match parse_power(tokens, &mut pos) {
        Ok(e) => e,
        Err(e) => {
            *position = pos;
            return Err(e);
        },
    };
    let ghost target = spec_parse_factor(t, pos0);
    let mut next_op = match_mul_op(tokens, pos);
    while next_op.is_some()
        invariant
            pos0 < pos <= tokens@.len(),
            next_op == mul_op_at(t, pos as int),
            target == spec_parse_factor_rest(t, pos as int, expr@),
        decreases tokens@.len() - pos,
    {
        let op = next_op.unwrap();
        pos = pos + 1;
        let right = match parse_power(tokens, &mut pos) {
            Ok(e) => e,
            Err(e) => {
                *position = pos;
                return Err(e);
            },
        };
        expr = Expression::BinaryOp(Box::new(expr), op, Box::new(right));
        next_op = match_mul_op(tokens, pos);
    }
    *position = pos;
    Ok(expr)
}

/// The additive tier: `factor (("+" | "-") factor)*`, folded left.
#[verifier::loop_isolation(false)]
fn parse_add_sub(tokens: &Vec<Token>, position: &mut usize) -> (r: Result<Expression, ParseError>)
    ensures
        expr_outcome(
            r,
            spec_parse_add_sub(toks_view(tokens@), *old(position) as int),
            *final(position) as int,
        ),
        *old(position) <= *final(position),
        r is Ok ==> *old(position) < *final(position) <= tokens@.len(),
    decreases tokens@.len() - *old(position), 6int,
{
    let ghost t = toks_view(tokens@);
    let ghost pos0 = *position as int;
    proof {
        lemma_vec_len_bound(tokens);
    }
    let mut pos: usize = *position;
    let mut expr = match parse_factor(tokens, &mut pos) {
        Ok(e) => e,
        Err(e) => {
            *position = pos;
            return Err(e);
        },
    };
    let ghost target = spec_parse_add_sub(t, pos0);
    let mut next_op = match_add_op(tokens, pos);
    while next_op.is_some()
        invariant
            pos0 < pos <= tokens@.len(),
            next_op == add_op_at(t, pos as int),
            target == spec_parse_add_sub_rest(t, pos as int, expr@),
        decreases tokens@.len() - pos,
    {
        let op = next_op.unwrap();
        pos = pos + 1;
        let right = match parse_factor(tokens, &mut pos) {
            Ok(e) => e,
            Err(e) => {
                *position = pos;
                return Err(e);
            },
        };
        expr = Expression::BinaryOp(Box::new(expr), op, Box::new(right));
        next_op = match_add_op(tokens, pos);
    }
    *position = pos;
    Ok(expr)
}

/// The comparison tier: `add_sub (relational add_sub)*`, folded left.
#[verifier::loop_isolation(false)]
pub fn parse_comparison(tokens: &Vec<Token>, position: &mut usize) -> (r: Result<
    Expression,
    ParseError,
>)
    ensures
        expr_outcome(
            r,
            spec_parse_comparison(toks_view(tokens@), *old(position) as int),
            *final(position) as int,
        ),
        *old(position) <= *final(position),
        r is Ok ==> *old(position) < *final(position) <= tokens@.len(),
    decreases tokens@.len() - *old(position), 8int,
{
    let ghost t = toks_view(tokens@);
    let ghost pos0 = *position as int;
    proof {
        lemma_vec_len_bound(tokens);
    }
    let mut pos: usize = *position;
    let mut expr = match parse_add_sub(tokens, &mut pos) {
        Ok(e) => e,
        Err(e) => {
            *position = pos;
            return Err(e);
        },
    };
    let ghost target = spec_parse_comparison(t, pos0);
    let mut next_op = match_cmp_op(tokens, pos);
    while next_op.is_some()
        invariant
            pos0 < pos <= tokens@.len(),
            next_op == cmp_op_at(t, pos as int),
            target == spec_parse_comparison_rest(t, pos as int, expr@),
        decreases tokens@.len() - pos,
    {
        let op = next_op.unwrap();
        pos = pos + 1;
        let right = match parse_add_sub(tokens, &mut pos) {
            Ok(e) => e,
            Err(e) => {
                *position = pos;
                return Err(e);
            },
        };
        expr = Expression::CompareOp(Box::new(expr), op, Box::new(right));
        next_op = match_cmp_op(tokens, pos);
    }
    *position = pos;
    Ok(expr)
}

/// The logical-and tier: `comparison ("&&" comparison)*`, folded left.
#[verifier::loop_isolation(false)]
fn parse_logical_and(tokens: &Vec<Token>, position: &mut usize) -> (r: Result<
    Expression,
    ParseError,
>)
    ensures
        expr_outcome(
            r,
            spec_parse_logical_and(toks_view(tokens@), *old(position) as int),
            *final(position) as int,
        ),
        *old(position) <= *final(position),
        r is Ok ==> *old(position) < *final(position) <= tokens@.len(),
    decreases tokens@.len() - *old(position), 10int,
{
    let ghost t = toks_view(tokens@);
    let ghost pos0 = *position as int;
    proof {
        lemma_vec_len_bound(tokens);
    }
    let mut pos: usize = *position;
    let mut expr = match parse_comparison(tokens, &mut pos) {
        Ok(e) => e,
        Err(e) => {
            *position = pos;
            return Err(e);
        },
    };
    let ghost target = spec_parse_logical_and(t, pos0);
    let mut next_op = match_and_op(tokens, pos);
    while next_op.is_some()
        invariant
            pos0 < pos <= tokens@.len(),
            next_op == and_op_at(t, pos as int),
            target == spec_parse_logical_and_rest(t, pos as int, expr@),
        decreases tokens@.len() - pos,
    {
        let op = next_op.unwrap();
        pos = pos + 1;
        let right = match parse_comparison(tokens, &mut pos) {
            Ok(e) => e,
            Err(e) => {
                *position = pos;
                return Err(e);
            },
        };
        expr = Expression::CompareOp(Box::new(expr), op, Box::new(right));
        next_op = match_and_op(tokens, pos);
    }
    *position = pos;
    Ok(expr)
}

/// The logical-or tier, the loosest of the expression grammar:
/// `logical_and ("||" logical_and)*`, folded left.
#[verifier::loop_isolation(false)]
pub fn parse_boolean(tokens: &Vec<Token>, position: &mut usize) -> (r: Result<
    Expression,
    ParseError,
>)
    ensures
        expr_outcome(
            r,
            spec_parse_boolean(toks_view(tokens@), *old(position) as int),
            *final(position) as int,
        ),
        *old(position) <= *final(position),
        r is Ok ==> *old(position) < *final(position) <= tokens@.len(),
    decreases tokens@.len() - *old(position), 12int,
{
    let ghost t = toks_view(tokens@);
    let ghost pos0 = *position as int;
    proof {
        lemma_vec_len_bound(tokens);
    }
    let mut pos: usize = *position;
    let mut expr = match parse_logical_and(tokens, &mut pos) {
        Ok(e) => e,
        Err(e) => {
            *position = pos;
            return Err(e);
        },
    };
    let ghost target = spec_parse_boolean(t, pos0);
    let mut next_op = match_or_op(tokens, pos);
    while next_op.is_some()
        invariant
            pos0 < pos <= tokens@.len(),
            next_op == or_op_at(t, pos as int),
            target == spec_parse_boolean_rest(t, pos as int, expr@),
        decreases tokens@.len() - pos,
    {
        let op = next_op.unwrap();
        pos = pos + 1;
        let right = match parse_logical_and(tokens, &mut pos) {
            Ok(e) => e,
            Err(e) => {
                *position = pos;
                return Err(e);
            },
        };
        expr = Expression::CompareOp(Box::new(expr), op, Box::new(right));
        next_op = match_or_op(tokens, pos);
    }
    *position = pos;
    Ok(expr)
}

/// A whole expression: the loosest tier.
fn parse_expression(tokens: &Vec<Token>, position: &mut usize) -> (r: Result<
    Expression,
    ParseError,
>)
    ensures
        expr_outcome(
            r,
            spec_parse_expression(toks_view(tokens@), *old(position) as int),
            *final(position) as int,
        ),
        *old(position) <= *final(position),
        r is Ok ==> *old(position) < *final(position) <= tokens@.len(),
    decreases tokens@.len() - *old(position), 13int,
{
    parse_boolean(tokens, position)
}

/// A variable name: consumes one identifier token.
fn parse_identifier(tokens: &Vec<Token>, position: &mut usize) -> (r: Result<
    Expression,
    ParseError,
>)
    ensures
        match spec_cur(toks_view(tokens@), *old(position) as int) {
            TokenView::Identifier(name) => {
                &&& r matches Ok(e) && e@ == ExprView::Variable(name)
                &&& *final(position) == *old(position) + 1
            },
            _ => {
                &&& r matches Err(pe) && pe@ == ParseErrorView::InvalidIdentifier
                &&& *final(position) == *old(position)
            },
        },
{
    proof {
        lemma_vec_len_bound(tokens);
    }
    let tok = current_token(tokens, *position);
    match tok {
        Token::Identifier(name) => {
            let nm = name.clone();
            advance(position);
            Ok(Expression::Variable(nm))
        },
        _ => Err(ParseError::InvalidIdentifier),
    }
}

/// One statement: `Identifier Assign expression`.
fn parse_assignment(tokens: &Vec<Token>, position: &mut usize) -> (r: Result<Stmt, ParseError>)
    ensures
        stmt_outcome(
            r,
            spec_parse_assignment(toks_view(tokens@), *old(position) as int),
            *final(position) as int,
        ),
        *old(position) <= *final(position),
        r is Ok ==> *old(position) < *final(position) <= tokens@.len(),
    decreases tokens@.len() - *old(position), 14int,
{
    let ghost t = toks_view(tokens@);
    let ghost pos0 = *position as int;
    proof {
        lemma_vec_len_bound(tokens);
    }
    match parse_identifier(tokens, position) {
        Err(e) => Err(e),
        Ok(Expression::Variable(var)) => {
            let tok = current_token(tokens, *position);
            match tok {
                Token::Assign => {
                    advance(position);
                    match parse_expression(tokens, position) {
                        Ok(e) => Ok(Stmt::Assignment(var, e)),
                        Err(e) => Err(e),
                    }
                },
                _ => Err(ParseError::InvalidAssignment),
            }
        },
        Ok(_) => {
            // never reached: a successful identifier parse yields a variable
            proof {
                assert(false);
            }
            Err(ParseError::InvalidIdentifier)
        },
    }
}

/// Whether a further statement is expected: the cursor still points into
/// the sequence and not at the `EOF` sentinel.
fn more_statements(tokens: &Vec<Token>, position: usize) -> (r: bool)
    ensures
        r == (position < tokens@.len() && !(spec_cur(toks_view(tokens@), position as int)
            is EOF)),
{
    if position < tokens.len() {
        match current_token(tokens, position) {
            Token::EOF => false,
            _ => true,
        }
    } else {
        false
    }
}

/// Parses a whole program: statements in source order until the `EOF`
/// sentinel (or the end of the sequence), or the first error.
#[verifier::loop_isolation(false)]
pub fn parse_program(tokens: &Vec<Token>) -> (r: Result<Program, ParseError>)
    ensures
        match r {
            Ok(p) => spec_parse_program(toks_view(tokens@)) == Ok::<
                Seq<StmtView>,
                ParseErrorView,
            >(p@),
            Err(e) => spec_parse_program(toks_view(tokens@)) == Err::<
                Seq<StmtView>,
                ParseErrorView,
            >(e@),
        },
{
    let ghost t = toks_view(tokens@);
    let ghost target = spec_parse_stmts(t, 0, Seq::empty());
    let mut position: usize = 0;
    let mut statements: Vec<Stmt> = Vec::new();
    proof {
        assert(statements@.map_values(|s: Stmt| s@) =~= Seq::<StmtView>::empty());
    }
    while more_statements(tokens, position)
        invariant
            position <= tokens@.len(),
            target == spec_parse_stmts(t, position as int, statements@.map_values(|s: Stmt| s@)),
        decreases tokens@.len() - position,
    {
        let ghost stmts_pre = statements@;
        match parse_assignment(tokens, &mut position) {
            Ok(st) => {
                statements.push(st);
                proof {
                    assert(statements@.map_values(|s: Stmt| s@) =~= stmts_pre.map_values(
                        |s: Stmt| s@,
                    ).push(st@));
                }
            },
            Err(e) => {
                return Err(e);
            },
        }
    }
    Ok(Program { statements })
}

} // verus!
