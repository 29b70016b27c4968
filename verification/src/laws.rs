//! Laws of the front end, stated over the grammar's spec functions and
//! proved for all inputs: what a single-token assignment parses to, that
//! every binary operator of the grammar folds left-associatively, and that
//! programs of assignments parse to their statements in source order.
use vstd::prelude::*;

use crate::ast::ExprView;
use crate::ast::ParseErrorView;
use crate::ast::StmtView;
use crate::grammar::add_op;
use crate::grammar::add_op_at;
use crate::grammar::and_op;
use crate::grammar::and_op_at;
use crate::grammar::cmp_op;
use crate::grammar::cmp_op_at;
use crate::grammar::lemma_op_table;
use crate::grammar::mul_op;
use crate::grammar::mul_op_at;
use crate::grammar::or_op;
use crate::grammar::or_op_at;
use crate::grammar::pow_op;
use crate::grammar::pow_op_at;
use crate::grammar::spec_cur;
use crate::grammar::spec_parse_add_sub;
use crate::grammar::spec_parse_add_sub_rest;
use crate::grammar::spec_parse_assignment;
use crate::grammar::spec_parse_boolean;
use crate::grammar::spec_parse_boolean_rest;
use crate::grammar::spec_parse_comparison;
use crate::grammar::spec_parse_comparison_rest;
use crate::grammar::spec_parse_expression;
use crate::grammar::spec_parse_factor;
use crate::grammar::spec_parse_factor_rest;
use crate::grammar::spec_parse_logical_and;
use crate::grammar::spec_parse_logical_and_rest;
use crate::grammar::spec_parse_power;
use crate::grammar::spec_parse_power_rest;
use crate::grammar::spec_parse_primary;
use crate::grammar::spec_parse_program;
use crate::grammar::spec_parse_stmts;
use crate::token::TokenView;

verus! {

/// The expression a single literal or variable token denotes.
pub open spec fn literal_expr(tok: TokenView) -> ExprView
    recommends
        tok is Number || tok is Identifier || tok is StringLiteral || tok is Boolean,
{
    match tok {
        TokenView::Number(n) => ExprView::Number(n),
        TokenView::Identifier(name) => ExprView::Variable(name),
        TokenView::StringLiteral(s) => ExprView::StringLiteral(s),
        TokenView::Boolean(b) => ExprView::Boolean(b),
        _ => ExprView::Boolean(false),
    }
}

/// No expression tier continues on a token that is not an operator.
proof fn lemma_tiers_stop(t: Seq<TokenView>, i: int)
    requires
        !(spec_cur(t, i) is Operator),
    ensures
        pow_op_at(t, i) is None,
        mul_op_at(t, i) is None,
        add_op_at(t, i) is None,
        cmp_op_at(t, i) is None,
        and_op_at(t, i) is None,
        or_op_at(t, i) is None,
{
}

/// When the token after an expression is not an operator, every tier of the
/// expression grammar hands a parsed operand through unchanged.
proof fn lemma_tiers_pass_through(t: Seq<TokenView>, i: int, j: int, e: ExprView)
    requires
        spec_parse_factor(t, i) == (Ok::<ExprView, ParseErrorView>(e), j),
        i <= j <= t.len(),
        !(spec_cur(t, j) is Operator),
    ensures
        spec_parse_add_sub(t, i) == (Ok::<ExprView, ParseErrorView>(e), j),
        spec_parse_comparison(t, i) == (Ok::<ExprView, ParseErrorView>(e), j),
        spec_parse_logical_and(t, i) == (Ok::<ExprView, ParseErrorView>(e), j),
        spec_parse_boolean(t, i) == (Ok::<ExprView, ParseErrorView>(e), j),
        spec_parse_expression(t, i) == (Ok::<ExprView, ParseErrorView>(e), j),
{
    lemma_tiers_stop(t, j);
    assert(spec_parse_add_sub_rest(t, j, e) == (Ok::<ExprView, ParseErrorView>(e), j));
    assert(spec_parse_add_sub(t, i) == (Ok::<ExprView, ParseErrorView>(e), j));
    assert(spec_parse_comparison_rest(t, j, e) == (Ok::<ExprView, ParseErrorView>(e), j));
    assert(spec_parse_comparison(t, i) == (Ok::<ExprView, ParseErrorView>(e), j));
    assert(spec_parse_logical_and_rest(t, j, e) == (Ok::<ExprView, ParseErrorView>(e), j));
    assert(spec_parse_logical_and(t, i) == (Ok::<ExprView, ParseErrorView>(e), j));
    assert(spec_parse_boolean_rest(t, j, e) == (Ok::<ExprView, ParseErrorView>(e), j));
    assert(spec_parse_boolean(t, i) == (Ok::<ExprView, ParseErrorView>(e), j));
}

/// A single literal or variable token parses as a primary expression and
/// rises through the tight tiers unchanged when no operator follows it.
proof fn lemma_literal_operand(t: Seq<TokenView>, i: int, tok: TokenView)
    requires
        spec_cur(t, i) == tok,
        tok is Number || tok is Identifier || tok is StringLiteral || tok is Boolean,
        !(spec_cur(t, i + 1) is Operator),
    ensures
        spec_parse_factor(t, i) == (Ok::<ExprView, ParseErrorView>(literal_expr(tok)), i + 1),
        spec_parse_power(t, i) == (Ok::<ExprView, ParseErrorView>(literal_expr(tok)), i + 1),
{
    let e = literal_expr(tok);
    lemma_tiers_stop(t, i + 1);
    assert(spec_parse_primary(t, i) == (Ok::<ExprView, ParseErrorView>(e), i + 1));
    assert(spec_parse_power_rest(t, i + 1, e) == (Ok::<ExprView, ParseErrorView>(e), i + 1));
    assert(spec_parse_power(t, i) == (Ok::<ExprView, ParseErrorView>(e), i + 1));
    assert(spec_parse_factor_rest(t, i + 1, e) == (Ok::<ExprView, ParseErrorView>(e), i + 1));
    assert(spec_parse_factor(t, i) == (Ok::<ExprView, ParseErrorView>(e), i + 1));
}

/// A literal token at `i`, followed by something that is neither a power
/// nor a multiplicative operator, rises unchanged through the
/// multiplicative tier.
proof fn lemma_literal_to_factor(t: Seq<TokenView>, i: int, tok: TokenView)
    requires
        spec_cur(t, i) == tok,
        tok is Number || tok is Identifier || tok is StringLiteral || tok is Boolean,
        pow_op_at(t, i + 1) is None,
        mul_op_at(t, i + 1) is None,
    ensures
        spec_parse_power(t, i) == (Ok::<ExprView, ParseErrorView>(literal_expr(tok)), i + 1),
        spec_parse_factor(t, i) == (Ok::<ExprView, ParseErrorView>(literal_expr(tok)), i + 1),
{
    let e = literal_expr(tok);
    assert(spec_parse_primary(t, i) == (Ok::<ExprView, ParseErrorView>(e), i + 1));
    assert(spec_parse_power_rest(t, i + 1, e) == (Ok::<ExprView, ParseErrorView>(e), i + 1));
    assert(spec_parse_power(t, i) == (Ok::<ExprView, ParseErrorView>(e), i + 1));
    assert(spec_parse_factor_rest(t, i + 1, e) == (Ok::<ExprView, ParseErrorView>(e), i + 1));
    assert(spec_parse_factor(t, i) == (Ok::<ExprView, ParseErrorView>(e), i + 1));
}

/// A literal token at `i`, followed by something that is neither a power
/// nor a multiplicative nor an additive operator, rises unchanged through
/// the additive tier.
proof fn lemma_literal_to_add_sub(t: Seq<TokenView>, i: int, tok: TokenView)
    requires
        spec_cur(t, i) == tok,
        tok is Number || tok is Identifier || tok is StringLiteral || tok is Boolean,
        pow_op_at(t, i + 1) is None,
        mul_op_at(t, i + 1) is None,
        add_op_at(t, i + 1) is None,
    ensures
        spec_parse_power(t, i) == (Ok::<ExprView, ParseErrorView>(literal_expr(tok)), i + 1),
        spec_parse_factor(t, i) == (Ok::<ExprView, ParseErrorView>(literal_expr(tok)), i + 1),
        spec_parse_add_sub(t, i) == (Ok::<ExprView, ParseErrorView>(literal_expr(tok)), i + 1),
{
    let e = literal_expr(tok);
    assert(spec_parse_primary(t, i) == (Ok::<ExprView, ParseErrorView>(e), i + 1));
    assert(spec_parse_power_rest(t, i + 1, e) == (Ok::<ExprView, ParseErrorView>(e), i + 1));
    assert(spec_parse_power(t, i) == (Ok::<ExprView, ParseErrorView>(e), i + 1));
    assert(spec_parse_factor_rest(t, i + 1, e) == (Ok::<ExprView, ParseErrorView>(e), i + 1));
    assert(spec_parse_factor(t, i) == (Ok::<ExprView, ParseErrorView>(e), i + 1));
    assert(spec_parse_add_sub_rest(t, i + 1, e) == (Ok::<ExprView, ParseErrorView>(e), i + 1));
    assert(spec_parse_add_sub(t, i) == (Ok::<ExprView, ParseErrorView>(e), i + 1));
}

/// The token sequence of `name = a <op> b <op> c`, the shape over which
/// left-associativity is stated.
pub open spec fn assoc_tokens(name: Seq<char>, opv: Seq<char>, a: int, b: int, c: int) -> Seq<
    TokenView,
> {
    seq![
        TokenView::Identifier(name),
        TokenView::Assign,
        TokenView::Number(a),
        TokenView::Operator(opv),
        TokenView::Number(b),
        TokenView::Operator(opv),
        TokenView::Number(c),
        TokenView::EOF,
    ]
}

/// The arithmetic operator the symbol `opv` denotes.
pub open spec fn arith_op_of(opv: Seq<char>) -> crate::ast::BinaryOperator
    recommends
        pow_op(opv) is Some || mul_op(opv) is Some || add_op(opv) is Some,
{
    match pow_op(opv) {
        Some(o) => o,
        None => match mul_op(opv) {
            Some(o) => o,
            None => match add_op(opv) {
                Some(o) => o,
                None => crate::ast::BinaryOperator::Add,
            },
        },
    }
}

/// The relational or logical operator the symbol `opv` denotes.
pub open spec fn compare_op_of(opv: Seq<char>) -> crate::ast::CompareOperator
    recommends
        cmp_op(opv) is Some || and_op(opv) is Some || or_op(opv) is Some,
{
    match cmp_op(opv) {
        Some(o) => o,
        None => match and_op(opv) {
            Some(o) => o,
            None => match or_op(opv) {
                Some(o) => o,
                None => crate::ast::CompareOperator::Equal,
            },
        },
    }
}

/// The left-nested tree `(a <op> b) <op> c` over arithmetic operands.
pub open spec fn left_nested_arith(o: crate::ast::BinaryOperator, a: int, b: int, c: int) -> ExprView {
    ExprView::BinaryOp(
        Box::new(
            ExprView::BinaryOp(
                Box::new(ExprView::Number(a)),
                o,
                Box::new(ExprView::Number(b)),
            ),
        ),
        o,
        Box::new(ExprView::Number(c)),
    )
}

/// The left-nested tree `(a <op> b) <op> c` over comparison operands.
pub open spec fn left_nested_compare(o: crate::ast::CompareOperator, a: int, b: int, c: int) -> ExprView {
    ExprView::CompareOp(
        Box::new(
            ExprView::CompareOp(
                Box::new(ExprView::Number(a)),
                o,
                Box::new(ExprView::Number(b)),
            ),
        ),
        o,
        Box::new(ExprView::Number(c)),
    )
}

/// Left-associativity of every arithmetic operator, `**` included: for every
/// name, every arithmetic operator symbol and all numbers `a`, `b`, `c`, the
/// program `name = a <op> b <op> c` parses to the left-nested tree
/// `(a <op> b) <op> c`.
#[verifier::rlimit(80)]
pub proof fn lemma_arith_left_associative(
    name: Seq<char>,
    opv: Seq<char>,
    a: int,
    b: int,
    c: int,
)
    requires
        pow_op(opv) is Some || mul_op(opv) is Some || add_op(opv) is Some,
    ensures
        spec_parse_program(assoc_tokens(name, opv, a, b, c)) == Ok::<
            Seq<StmtView>,
            ParseErrorView,
        >(seq![StmtView::Assignment(name, left_nested_arith(arith_op_of(opv), a, b, c))]),
{
    lemma_op_table();
    let t = assoc_tokens(name, opv, a, b, c);
    let o = arith_op_of(opv);
    let na = ExprView::Number(a);
    let nb = ExprView::Number(b);
    let nc = ExprView::Number(c);
    let e1 = ExprView::BinaryOp(Box::new(na), o, Box::new(nb));
    let e2 = ExprView::BinaryOp(Box::new(e1), o, Box::new(nc));
    let stmt = StmtView::Assignment(name, e2);
    assert(spec_cur(t, 2) == TokenView::Number(a));
    assert(spec_cur(t, 4) == TokenView::Number(b));
    assert(spec_cur(t, 6) == TokenView::Number(c));
    assert(spec_cur(t, 7) is EOF);
    lemma_tiers_stop(t, 7);
    assert(spec_parse_primary(t, 2) == (Ok::<ExprView, ParseErrorView>(na), 3int));
    assert(spec_parse_primary(t, 4) == (Ok::<ExprView, ParseErrorView>(nb), 5int));
    assert(spec_parse_primary(t, 6) == (Ok::<ExprView, ParseErrorView>(nc), 7int));
    if pow_op(opv) is Some {
        // the fold happens inside the power tier
        assert(spec_parse_power_rest(t, 7, e2) == (Ok::<ExprView, ParseErrorView>(e2), 7int));
        assert(spec_parse_power_rest(t, 5, e1) == (Ok::<ExprView, ParseErrorView>(e2), 7int));
        assert(spec_parse_power_rest(t, 3, na) == (Ok::<ExprView, ParseErrorView>(e2), 7int));
        assert(spec_parse_power(t, 2) == (Ok::<ExprView, ParseErrorView>(e2), 7int));
        assert(spec_parse_factor_rest(t, 7, e2) == (Ok::<ExprView, ParseErrorView>(e2), 7int));
        assert(spec_parse_factor(t, 2) == (Ok::<ExprView, ParseErrorView>(e2), 7int));
    } else if mul_op(opv) is Some {
        // the power tier stops at the operator; the multiplicative tier folds
        assert(spec_parse_power_rest(t, 3, na) == (Ok::<ExprView, ParseErrorView>(na), 3int));
        assert(spec_parse_power(t, 2) == (Ok::<ExprView, ParseErrorView>(na), 3int));
        assert(spec_parse_power_rest(t, 5, nb) == (Ok::<ExprView, ParseErrorView>(nb), 5int));
        assert(spec_parse_power(t, 4) == (Ok::<ExprView, ParseErrorView>(nb), 5int));
        assert(spec_parse_power_rest(t, 7, nc) == (Ok::<ExprView, ParseErrorView>(nc), 7int));
        assert(spec_parse_power(t, 6) == (Ok::<ExprView, ParseErrorView>(nc), 7int));
        assert(spec_parse_factor_rest(t, 7, e2) == (Ok::<ExprView, ParseErrorView>(e2), 7int));
        assert(spec_parse_factor_rest(t, 5, e1) == (Ok::<ExprView, ParseErrorView>(e2), 7int));
        assert(spec_parse_factor_rest(t, 3, na) == (Ok::<ExprView, ParseErrorView>(e2), 7int));
        assert(spec_parse_factor(t, 2) == (Ok::<ExprView, ParseErrorView>(e2), 7int));
    } else {
        // the tight tiers stop at the operator; the additive tier folds
        lemma_literal_to_factor(t, 2, TokenView::Number(a));
        lemma_literal_to_factor(t, 4, TokenView::Number(b));
        assert(spec_parse_factor(t, 2) == (Ok::<ExprView, ParseErrorView>(na), 3int));
        assert(spec_parse_factor(t, 4) == (Ok::<ExprView, ParseErrorView>(nb), 5int));
        assert(spec_parse_power_rest(t, 7, nc) == (Ok::<ExprView, ParseErrorView>(nc), 7int));
        assert(spec_parse_power(t, 6) == (Ok::<ExprView, ParseErrorView>(nc), 7int));
        assert(spec_parse_factor_rest(t, 7, nc) == (Ok::<ExprView, ParseErrorView>(nc), 7int));
        assert(spec_parse_factor(t, 6) == (Ok::<ExprView, ParseErrorView>(nc), 7int));
        assert(spec_parse_add_sub_rest(t, 7, e2) == (Ok::<ExprView, ParseErrorView>(e2), 7int));
        assert(spec_parse_add_sub_rest(t, 5, e1) == (Ok::<ExprView, ParseErrorView>(e2), 7int));
        assert(spec_parse_add_sub_rest(t, 3, na) == (Ok::<ExprView, ParseErrorView>(e2), 7int));
        assert(spec_parse_add_sub(t, 2) == (Ok::<ExprView, ParseErrorView>(e2), 7int));
    }
    assert(spec_parse_add_sub_rest(t, 7, e2) == (Ok::<ExprView, ParseErrorView>(e2), 7int));
    assert(spec_parse_add_sub(t, 2) == (Ok::<ExprView, ParseErrorView>(e2), 7int));
    assert(spec_parse_comparison_rest(t, 7, e2) == (Ok::<ExprView, ParseErrorView>(e2), 7int));
    assert(spec_parse_comparison(t, 2) == (Ok::<ExprView, ParseErrorView>(e2), 7int));
    assert(spec_parse_logical_and_rest(t, 7, e2) == (Ok::<ExprView, ParseErrorView>(e2), 7int));
    assert(spec_parse_logical_and(t, 2) == (Ok::<ExprView, ParseErrorView>(e2), 7int));
    assert(spec_parse_boolean_rest(t, 7, e2) == (Ok::<ExprView, ParseErrorView>(e2), 7int));
    assert(spec_parse_boolean(t, 2) == (Ok::<ExprView, ParseErrorView>(e2), 7int));
    assert(spec_parse_assignment(t, 0) == (Ok::<StmtView, ParseErrorView>(stmt), 7int));
    assert(spec_parse_stmts(t, 7, seq![stmt]) == (Ok::<Seq<StmtView>, ParseErrorView>(
        seq![stmt],
    ), 7int));
    assert(Seq::<StmtView>::empty().push(stmt) =~= seq![stmt]);
    assert(spec_parse_stmts(t, 0, Seq::empty()) == (Ok::<Seq<StmtView>, ParseErrorView>(
        seq![stmt],
    ), 7int));
}

/// Left-associativity of every relational and logical operator: for every
/// name, every such operator symbol and all numbers `a`, `b`, `c`, the
/// program `name = a <op> b <op> c` parses to the left-nested tree
/// `(a <op> b) <op> c`.
#[verifier::rlimit(80)]
pub proof fn lemma_compare_left_associative(
    name: Seq<char>,
    opv: Seq<char>,
    a: int,
    b: int,
    c: int,
)
    requires
        cmp_op(opv) is Some || and_op(opv) is Some || or_op(opv) is Some,
    ensures
        spec_parse_program(assoc_tokens(name, opv, a, b, c)) == Ok::<
            Seq<StmtView>,
            ParseErrorView,
        >(seq![StmtView::Assignment(name, left_nested_compare(compare_op_of(opv), a, b, c))]),
{
    lemma_op_table();
    let t = assoc_tokens(name, opv, a, b, c);
    let o = compare_op_of(opv);
    let na = ExprView::Number(a);
    let nb = ExprView::Number(b);
    let nc = ExprView::Number(c);
    let e1 = ExprView::CompareOp(Box::new(na), o, Box::new(nb));
    let e2 = ExprView::CompareOp(Box::new(e1), o, Box::new(nc));
    let stmt = StmtView::Assignment(name, e2);
    assert(spec_cur(t, 2) == TokenView::Number(a));
    assert(spec_cur(t, 4) == TokenView::Number(b));
    assert(spec_cur(t, 6) == TokenView::Number(c));
    assert(spec_cur(t, 7) is EOF);
    lemma_tiers_stop(t, 7);
    // every operand rises to the additive tier: the operator is relational
    // or logical, so the arithmetic tiers stop at it
    lemma_literal_to_add_sub(t, 2, TokenView::Number(a));
    lemma_literal_to_add_sub(t, 4, TokenView::Number(b));
    lemma_literal_to_add_sub(t, 6, TokenView::Number(c));
    if cmp_op(opv) is Some {
        // the comparison tier folds
        assert(spec_parse_comparison_rest(t, 7, e2) == (Ok::<ExprView, ParseErrorView>(e2), 7int));
        assert(spec_parse_comparison_rest(t, 5, e1) == (Ok::<ExprView, ParseErrorView>(e2), 7int));
        assert(spec_parse_comparison_rest(t, 3, na) == (Ok::<ExprView, ParseErrorView>(e2), 7int));
        assert(spec_parse_comparison(t, 2) == (Ok::<ExprView, ParseErrorView>(e2), 7int));
        assert(spec_parse_logical_and_rest(t, 7, e2) == (Ok::<ExprView, ParseErrorView>(
            e2,
        ), 7int));
        assert(spec_parse_logical_and(t, 2) == (Ok::<ExprView, ParseErrorView>(e2), 7int));
        assert(spec_parse_boolean_rest(t, 7, e2) == (Ok::<ExprView, ParseErrorView>(e2), 7int));
        assert(spec_parse_boolean(t, 2) == (Ok::<ExprView, ParseErrorView>(e2), 7int));
    } else if and_op(opv) is Some {
        // the comparison tier stops at the operator; the logical-and tier folds
        assert(spec_parse_comparison_rest(t, 3, na) == (Ok::<ExprView, ParseErrorView>(na), 3int));
        assert(spec_parse_comparison(t, 2) == (Ok::<ExprView, ParseErrorView>(na), 3int));
        assert(spec_parse_comparison_rest(t, 5, nb) == (Ok::<ExprView, ParseErrorView>(nb), 5int));
        assert(spec_parse_comparison(t, 4) == (Ok::<ExprView, ParseErrorView>(nb), 5int));
        assert(spec_parse_comparison_rest(t, 7, nc) == (Ok::<ExprView, ParseErrorView>(nc), 7int));
        assert(spec_parse_comparison(t, 6) == (Ok::<ExprView, ParseErrorView>(nc), 7int));
        assert(spec_parse_logical_and_rest(t, 7, e2) == (Ok::<ExprView, ParseErrorView>(
            e2,
        ), 7int));
        assert(spec_parse_logical_and_rest(t, 5, e1) == (Ok::<ExprView, ParseErrorView>(
            e2,
        ), 7int));
        assert(spec_parse_logical_and_rest(t, 3, na) == (Ok::<ExprView, ParseErrorView>(
            e2,
        ), 7int));
        assert(spec_parse_logical_and(t, 2) == (Ok::<ExprView, ParseErrorView>(e2), 7int));
        assert(spec_parse_boolean_rest(t, 7, e2) == (Ok::<ExprView, ParseErrorView>(e2), 7int));
        assert(spec_parse_boolean(t, 2) == (Ok::<ExprView, ParseErrorView>(e2), 7int));
    } else {
        // the tighter tiers stop at the operator; the logical-or tier folds
        assert(spec_parse_comparison_rest(t, 3, na) == (Ok::<ExprView, ParseErrorView>(na), 3int));
        assert(spec_parse_comparison(t, 2) == (Ok::<ExprView, ParseErrorView>(na), 3int));
        assert(spec_parse_comparison_rest(t, 5, nb) == (Ok::<ExprView, ParseErrorView>(nb), 5int));
        assert(spec_parse_comparison(t, 4) == (Ok::<ExprView, ParseErrorView>(nb), 5int));
        assert(spec_parse_comparison_rest(t, 7, nc) == (Ok::<ExprView, ParseErrorView>(nc), 7int));
        assert(spec_parse_comparison(t, 6) == (Ok::<ExprView, ParseErrorView>(nc), 7int));
        assert(spec_parse_logical_and_rest(t, 3, na) == (Ok::<ExprView, ParseErrorView>(
            na,
        ), 3int));
        assert(spec_parse_logical_and(t, 2) == (Ok::<ExprView, ParseErrorView>(na), 3int));
        assert(spec_parse_logical_and_rest(t, 5, nb) == (Ok::<ExprView, ParseErrorView>(
            nb,
        ), 5int));
        assert(spec_parse_logical_and(t, 4) == (Ok::<ExprView, ParseErrorView>(nb), 5int));
        assert(spec_parse_logical_and_rest(t, 7, nc) == (Ok::<ExprView, ParseErrorView>(
            nc,
        ), 7int));
        assert(spec_parse_logical_and(t, 6) == (Ok::<ExprView, ParseErrorView>(nc), 7int));
        assert(spec_parse_boolean_rest(t, 7, e2) == (Ok::<ExprView, ParseErrorView>(e2), 7int));
        assert(spec_parse_boolean_rest(t, 5, e1) == (Ok::<ExprView, ParseErrorView>(e2), 7int));
        assert(spec_parse_boolean_rest(t, 3, na) == (Ok::<ExprView, ParseErrorView>(e2), 7int));
        assert(spec_parse_boolean(t, 2) == (Ok::<ExprView, ParseErrorView>(e2), 7int));
    }
    assert(spec_parse_boolean(t, 2) == (Ok::<ExprView, ParseErrorView>(e2), 7int));
    assert(spec_parse_assignment(t, 0) == (Ok::<StmtView, ParseErrorView>(stmt), 7int));
    assert(spec_parse_stmts(t, 7, seq![stmt]) == (Ok::<Seq<StmtView>, ParseErrorView>(
        seq![stmt],
    ), 7int));
    assert(Seq::<StmtView>::empty().push(stmt) =~= seq![stmt]);
    assert(spec_parse_stmts(t, 0, Seq::empty()) == (Ok::<Seq<StmtView>, ParseErrorView>(
        seq![stmt],
    ), 7int));
}

/// For every variable name and every single literal or variable token,
/// `name = <token>` parses to the one-statement program assigning the
/// matching expression to that name.
pub proof fn lemma_single_token_assignment(name: Seq<char>, tok: TokenView)
    requires
        tok is Number || tok is Identifier || tok is StringLiteral || tok is Boolean,
    ensures
        spec_parse_program(
            seq![TokenView::Identifier(name), TokenView::Assign, tok, TokenView::EOF],
        ) == Ok::<Seq<StmtView>, ParseErrorView>(
            seq![StmtView::Assignment(name, literal_expr(tok))],
        ),
{
    let t = seq![TokenView::Identifier(name), TokenView::Assign, tok, TokenView::EOF];
    let e = literal_expr(tok);
    let stmt = StmtView::Assignment(name, e);
    assert(spec_cur(t, 2) == tok);
    assert(spec_cur(t, 3) is EOF);
    lemma_literal_operand(t, 2, tok);
    lemma_tiers_pass_through(t, 2, 3, e);
    assert(spec_parse_assignment(t, 0) == (Ok::<StmtView, ParseErrorView>(stmt), 3int));
    assert(spec_parse_stmts(t, 3, seq![stmt]) == (Ok::<Seq<StmtView>, ParseErrorView>(
        seq![stmt],
    ), 3int));
    assert(Seq::<StmtView>::empty().push(stmt) =~= seq![stmt]);
    assert(spec_parse_stmts(t, 0, Seq::empty()) == (Ok::<Seq<StmtView>, ParseErrorView>(
        seq![stmt],
    ), 3int));
}

/// The token sequence of a program of `names.len()` assignment statements,
/// the statement `k` assigning the literal token `lits[k]` to `names[k]`.
pub open spec fn program_tokens(names: Seq<Seq<char>>, lits: Seq<TokenView>) -> Seq<TokenView>
    recommends
        names.len() == lits.len(),
{
    Seq::new(
        3 * names.len() + 1,
        |i: int|
            if i == 3 * names.len() {
                TokenView::EOF
            } else if i % 3 == 0 {
                TokenView::Identifier(names[i / 3])
            } else if i % 3 == 1 {
                TokenView::Assign
            } else {
                lits[i / 3]
            },
    )
}

/// The statements that such a program denotes, in source order.
pub open spec fn program_stmts(names: Seq<Seq<char>>, lits: Seq<TokenView>) -> Seq<StmtView>
    recommends
        names.len() == lits.len(),
{
    Seq::new(names.len(), |k: int| StmtView::Assignment(names[k], literal_expr(lits[k])))
}

/// Statements are parsed in source order: from the statement boundary `3 * k`
/// on, the parse appends exactly the remaining statements, in order.
proof fn lemma_stmts_in_order_from(
    names: Seq<Seq<char>>,
    lits: Seq<TokenView>,
    k: int,
    acc: Seq<StmtView>,
)
    requires
        names.len() == lits.len(),
        forall|j: int|
            0 <= j < lits.len() ==> (#[trigger] lits[j] is Number || lits[j] is Identifier
                || lits[j] is StringLiteral || lits[j] is Boolean),
        0 <= k <= names.len(),
    ensures
        spec_parse_stmts(program_tokens(names, lits), 3 * k, acc) == (Ok::<
            Seq<StmtView>,
            ParseErrorView,
        >(acc + program_stmts(names, lits).skip(k)), 3 * names.len() as int),
    decreases names.len() - k,
{
    let t = program_tokens(names, lits);
    let n = names.len() as int;
    let stmts = program_stmts(names, lits);
    if k == n {
        assert(spec_cur(t, 3 * k) is EOF);
        assert(acc + stmts.skip(k) =~= acc);
    } else {
        let tok = lits[k];
        let e = literal_expr(tok);
        let stmt = StmtView::Assignment(names[k], e);
        assert(spec_cur(t, 3 * k) == TokenView::Identifier(names[k]));
        assert(spec_cur(t, 3 * k + 1) is Assign);
        assert(spec_cur(t, 3 * k + 2) == tok);
        assert(spec_cur(t, 3 * k + 3) is Identifier || spec_cur(t, 3 * k + 3) is EOF) by {
            if k + 1 == n {
                assert(3 * k + 3 == 3 * n);
            } else {
                assert((3 * k + 3) % 3 == 0 && (3 * k + 3) / 3 == k + 1);
            }
        }
        lemma_literal_operand(t, 3 * k + 2, tok);
        lemma_tiers_pass_through(t, 3 * k + 2, 3 * k + 3, e);
        assert(spec_parse_assignment(t, 3 * k) == (Ok::<StmtView, ParseErrorView>(stmt), 3 * k
            + 3));
        lemma_stmts_in_order_from(names, lits, k + 1, acc.push(stmt));
        assert(stmts.skip(k)[0] == stmts[k]);
        assert(acc.push(stmt) + stmts.skip(k + 1) =~= acc + stmts.skip(k));
        assert(!(spec_cur(t, 3 * k) is EOF));
        assert(3 * k < t.len());
    }
}

/// Multi-statement programs preserve source order: a program of any number
/// of assignments of literals parses to exactly those statements, one per
/// assignment, in the order they stand in the source.
pub proof fn lemma_statements_in_order(names: Seq<Seq<char>>, lits: Seq<TokenView>)
    requires
        names.len() == lits.len(),
        forall|j: int|
            0 <= j < lits.len() ==> (#[trigger] lits[j] is Number || lits[j] is Identifier
                || lits[j] is StringLiteral || lits[j] is Boolean),
    ensures
        spec_parse_program(program_tokens(names, lits)) == Ok::<Seq<StmtView>, ParseErrorView>(
            program_stmts(names, lits),
        ),
{
    lemma_stmts_in_order_from(names, lits, 0, Seq::empty());
    assert(Seq::<StmtView>::empty() + program_stmts(names, lits).skip(0) =~= program_stmts(
        names,
        lits,
    ));
}

} // verus!
