//! Locality of the parse: a parse outcome depends only on the tokens
//! between its start and end positions.  Three families of lemmas, one per
//! grammar function: the cursor only moves forward (`advances_*`), tokens
//! standing before the start do not matter (`shift_*`), and tokens standing
//! after the end do not matter (`extend_*`).  Together they give the
//! concatenation law: programs parse statement by statement, so parsing two
//! programs joined end to end yields the two statement lists joined end to
//! end, in source order.
use vstd::prelude::*;

use crate::ast::ExprView;
use crate::ast::ParseErrorView;
use crate::ast::StmtView;
use crate::grammar::add_op_at;
use crate::grammar::and_op_at;
use crate::grammar::cmp_op_at;
use crate::grammar::mul_op_at;
use crate::grammar::or_op_at;
use crate::grammar::pow_op_at;
use crate::grammar::spec_cur;
use crate::grammar::spec_parse_add_sub;
use crate::grammar::spec_parse_add_sub_rest;
use crate::grammar::spec_parse_assignment;
use crate::grammar::spec_parse_boolean;
use crate::grammar::spec_parse_boolean_rest;
use crate::grammar::spec_parse_comparison;
use crate::grammar::spec_parse_comparison_rest;
use crate::grammar::spec_parse_expression;
use crate::grammar::spec_parse_factor;
use crate::grammar::spec_parse_factor_rest;
use crate::grammar::spec_parse_logical_and;
use crate::grammar::spec_parse_logical_and_rest;
use crate::grammar::spec_parse_power;
use crate::grammar::spec_parse_power_rest;
use crate::grammar::spec_parse_primary;
use crate::grammar::spec_parse_program;
use crate::grammar::spec_parse_stmts;
use crate::token::TokenView;

verus! {

/// The cursor of a successful primary parse moves forward and stays inside
/// the sequence.
proof fn advances_primary(t: Seq<TokenView>, i: int)
    ensures
        spec_parse_primary(t, i).1 >= i,
        spec_parse_primary(t, i).0 is Ok ==> i < spec_parse_primary(t, i).1 <= t.len(),
    decreases t.len() - i, 0int,
{
    match spec_cur(t, i) {
        TokenView::OpenParen => {
            advances_expression(t, i + 1);
        },
        _ => {},
    }
}

/// The cursor of a tier fold moves forward, and a successful fold ends
/// inside the sequence or where it began.
proof fn advances_power_rest(t: Seq<TokenView>, i: int, acc: ExprView)
    ensures
        spec_parse_power_rest(t, i, acc).1 >= i,
        spec_parse_power_rest(t, i, acc).0 is Ok ==> spec_parse_power_rest(t, i, acc).1 == i || (i
            < spec_parse_power_rest(t, i, acc).1 <= t.len()),
    decreases t.len() - i, 1int,
{
    match pow_op_at(t, i) {
        None => {},
        Some(op) => {
            advances_primary(t, i + 1);
            let r0 = spec_parse_primary(t, i + 1);
            match r0.0 {
                Ok(right) => {
                    if i < r0.1 <= t.len() {
                        advances_power_rest(
                            t,
                            r0.1,
                            ExprView::BinaryOp(Box::new(acc), op, Box::new(right)),
                        );
                    }
                },
                Err(_) => {},
            }
        },
    }
}

/// The cursor of a successful power parse moves forward and stays inside
/// the sequence.
proof fn advances_power(t: Seq<TokenView>, i: int)
    ensures
        spec_parse_power(t, i).1 >= i,
        spec_parse_power(t, i).0 is Ok ==> i < spec_parse_power(t, i).1 <= t.len(),
    decreases t.len() - i, 2int,
{
    advances_primary(t, i);
    let r0 = spec_parse_primary(t, i);
    match r0.0 {
        Ok(first) => {
            if i <= r0.1 <= t.len() {
                advances_power_rest(t, r0.1, first);
            }
        },
        Err(_) => {},
    }
}

/// The cursor of a tier fold moves forward, and a successful fold ends
/// inside the sequence or where it began.
proof fn advances_factor_rest(t: Seq<TokenView>, i: int, acc: ExprView)
    ensures
        spec_parse_factor_rest(t, i, acc).1 >= i,
        spec_parse_factor_rest(t, i, acc).0 is Ok ==> spec_parse_factor_rest(t, i, acc).1 == i || (i
            < spec_parse_factor_rest(t, i, acc).1 <= t.len()),
    decreases t.len() - i, 3int,
{
    match mul_op_at(t, i) {
        None => {},
        Some(op) => {
            advances_power(t, i + 1);
            let r0 = spec_parse_power(t, i + 1);
            match r0.0 {
                Ok(right) => {
                    if i < r0.1 <= t.len() {
                        advances_factor_rest(
                            t,
                            r0.1,
                            ExprView::BinaryOp(Box::new(acc), op, Box::new(right)),
                        );
                    }
                },
                Err(_) => {},
            }
        },
    }
}

/// The cursor of a successful factor parse moves forward and stays inside
/// the sequence.
proof fn advances_factor(t: Seq<TokenView>, i: int)
    ensures
        spec_parse_factor(t, i).1 >= i,
        spec_parse_factor(t, i).0 is Ok ==> i < spec_parse_factor(t, i).1 <= t.len(),
    decreases t.len() - i, 4int,
{
    advances_power(t, i);
    let r0 = spec_parse_power(t, i);
    match r0.0 {
        Ok(first) => {
            if i <= r0.1 <= t.len() {
                advances_factor_rest(t, r0.1, first);
            }
        },
        Err(_) => {},
    }
}

/// The cursor of a tier fold moves forward, and a successful fold ends
/// inside the sequence or where it began.
proof fn advances_add_sub_rest(t: Seq<TokenView>, i: int, acc: ExprView)
    ensures
        spec_parse_add_sub_rest(t, i, acc).1 >= i,
        spec_parse_add_sub_rest(t, i, acc).0 is Ok ==> spec_parse_add_sub_rest(t, i, acc).1 == i || (i
            < spec_parse_add_sub_rest(t, i, acc).1 <= t.len()),
    decreases t.len() - i, 5int,
{
    match add_op_at(t, i) {
        None => {},
        Some(op) => {
            advances_factor(t, i + 1);
            let r0 = spec_parse_factor(t, i + 1);
            match r0.0 {
                Ok(right) => {
                    if i < r0.1 <= t.len() {
                        advances_add_sub_rest(
                            t,
                            r0.1,
                            ExprView::BinaryOp(Box::new(acc), op, Box::new(right)),
                        );
                    }
                },
                Err(_) => {},
            }
        },
    }
}

/// The cursor of a successful add_sub parse moves forward and stays inside
/// the sequence.
proof fn advances_add_sub(t: Seq<TokenView>, i: int)
    ensures
        spec_parse_add_sub(t, i).1 >= i,
        spec_parse_add_sub(t, i).0 is Ok ==> i < spec_parse_add_sub(t, i).1 <= t.len(),
    decreases t.len() - i, 6int,
{
    advances_factor(t, i);
    let r0 = spec_parse_factor(t, i);
    match r0.0 {
        Ok(first) => {
            if i <= r0.1 <= t.len() {
                advances_add_sub_rest(t, r0.1, first);
            }
        },
        Err(_) => {},
    }
}

/// The cursor of a tier fold moves forward, and a successful fold ends
/// inside the sequence or where it began.
proof fn advances_comparison_rest(t: Seq<TokenView>, i: int, acc: ExprView)
    ensures
        spec_parse_comparison_rest(t, i, acc).1 >= i,
        spec_parse_comparison_rest(t, i, acc).0 is Ok ==> spec_parse_comparison_rest(t, i, acc).1 == i || (i
            < spec_parse_comparison_rest(t, i, acc).1 <= t.len()),
    decreases t.len() - i, 7int,
{
    match cmp_op_at(t, i) {
        None => {},
        Some(op) => {
            advances_add_sub(t, i + 1);
            let r0 = spec_parse_add_sub(t, i + 1);
            match r0.0 {
                Ok(right) => {
                    if i < r0.1 <= t.len() {
                        advances_comparison_rest(
                            t,
                            r0.1,
                            ExprView::CompareOp(Box::new(acc), op, Box::new(right)),
                        );
                    }
                },
                Err(_) => {},
            }
        },
    }
}

/// The cursor of a successful comparison parse moves forward and stays inside
/// the sequence.
proof fn advances_comparison(t: Seq<TokenView>, i: int)
    ensures
        spec_parse_comparison(t, i).1 >= i,
        spec_parse_comparison(t, i).0 is Ok ==> i < spec_parse_comparison(t, i).1 <= t.len(),
    decreases t.len() - i, 8int,
{
    advances_add_sub(t, i);
    let r0 = spec_parse_add_sub(t, i);
    match r0.0 {
        Ok(first) => {
            if i <= r0.1 <= t.len() {
                advances_comparison_rest(t, r0.1, first);
            }
        },
        Err(_) => {},
    }
}

/// The cursor of a tier fold moves forward, and a successful fold ends
/// inside the sequence or where it began.
proof fn advances_logical_and_rest(t: Seq<TokenView>, i: int, acc: ExprView)
    ensures
        spec_parse_logical_and_rest(t, i, acc).1 >= i,
        spec_parse_logical_and_rest(t, i, acc).0 is Ok ==> spec_parse_logical_and_rest(t, i, acc).1 == i || (i
            < spec_parse_logical_and_rest(t, i, acc).1 <= t.len()),
    decreases t.len() - i, 9int,
{
    match and_op_at(t, i) {
        None => {},
        Some(op) => {
            advances_comparison(t, i + 1);
            let r0 = spec_parse_comparison(t, i + 1);
            match r0.0 {
                Ok(right) => {
                    if i < r0.1 <= t.len() {
                        advances_logical_and_rest(
                            t,
                            r0.1,
                            ExprView::CompareOp(Box::new(acc), op, Box::new(right)),
                        );
                    }
                },
                Err(_) => {},
            }
        },
    }
}

/// The cursor of a successful logical_and parse moves forward and stays inside
/// the sequence.
proof fn advances_logical_and(t: Seq<TokenView>, i: int)
    ensures
        spec_parse_logical_and(t, i).1 >= i,
        spec_parse_logical_and(t, i).0 is Ok ==> i < spec_parse_logical_and(t, i).1 <= t.len(),
    decreases t.len() - i, 10int,
{
    advances_comparison(t, i);
    let r0 = spec_parse_comparison(t, i);
    match r0.0 {
        Ok(first) => {
            if i <= r0.1 <= t.len() {
                advances_logical_and_rest(t, r0.1, first);
            }
        },
        Err(_) => {},
    }
}

/// The cursor of a tier fold moves forward, and a successful fold ends
/// inside the sequence or where it began.
proof fn advances_boolean_rest(t: Seq<TokenView>, i: int, acc: ExprView)
    ensures
        spec_parse_boolean_rest(t, i, acc).1 >= i,
        spec_parse_boolean_rest(t, i, acc).0 is Ok ==> spec_parse_boolean_rest(t, i, acc).1 == i || (i
            < spec_parse_boolean_rest(t, i, acc).1 <= t.len()),
    decreases t.len() - i, 11int,
{
    match or_op_at(t, i) {
        None => {},
        Some(op) => {
            advances_logical_and(t, i + 1);
            let r0 = spec_parse_logical_and(t, i + 1);
            match r0.0 {
                Ok(right) => {
                    if i < r0.1 <= t.len() {
                        advances_boolean_rest(
                            t,
                            r0.1,
                            ExprView::CompareOp(Box::new(acc), op, Box::new(right)),
                        );
                    }
                },
                Err(_) => {},
            }
        },
    }
}

/// The cursor of a successful boolean parse moves forward and stays inside
/// the sequence.
proof fn advances_boolean(t: Seq<TokenView>, i: int)
    ensures
        spec_parse_boolean(t, i).1 >= i,
        spec_parse_boolean(t, i).0 is Ok ==> i < spec_parse_boolean(t, i).1 <= t.len(),
    decreases t.len() - i, 12int,
{
    advances_logical_and(t, i);
    let r0 = spec_parse_logical_and(t, i);
    match r0.0 {
        Ok(first) => {
            if i <= r0.1 <= t.len() {
                advances_boolean_rest(t, r0.1, first);
            }
        },
        Err(_) => {},
    }
}

/// The cursor of a successful expression parse moves forward and stays
/// inside the sequence.
proof fn advances_expression(t: Seq<TokenView>, i: int)
    ensures
        spec_parse_expression(t, i).1 >= i,
        spec_parse_expression(t, i).0 is Ok ==> i < spec_parse_expression(t, i).1 <= t.len(),
    decreases t.len() - i, 13int,
{
    advances_boolean(t, i);
}

/// The cursor of a successful statement parse moves forward and stays
/// inside the sequence.
proof fn advances_assignment(t: Seq<TokenView>, i: int)
    ensures
        spec_parse_assignment(t, i).1 >= i,
        spec_parse_assignment(t, i).0 is Ok ==> i < spec_parse_assignment(t, i).1 <= t.len(),
    decreases t.len() - i, 14int,
{
    match spec_cur(t, i) {
        TokenView::Identifier(_) => {
            if spec_cur(t, i + 1) is Assign {
                advances_expression(t, i + 2);
            }
        },
        _ => {},
    }
}

/// The token under a cursor inside `t` is unmoved by text standing in front
/// of `t`.
proof fn lemma_cur_shift(w: Seq<TokenView>, t: Seq<TokenView>, i: int)
    requires
        0 <= i,
    ensures
        spec_cur(w + t, w.len() + i) == spec_cur(t, i),
{
    if i < t.len() {
        assert((w + t)[w.len() + i] == t[i]);
    }
}

/// A primary parse is unmoved by text standing in front of its tokens.
proof fn shift_primary(w: Seq<TokenView>, t: Seq<TokenView>, i: int)
    requires
        0 <= i,
    ensures
        spec_parse_primary(w + t, w.len() + i) == (
            spec_parse_primary(t, i).0,
            w.len() + spec_parse_primary(t, i).1,
        ),
    decreases t.len() - i, 0int,
{
    lemma_cur_shift(w, t, i);
    match spec_cur(t, i) {
        TokenView::OpenParen => {
            shift_expression(w, t, i + 1);
            advances_expression(t, i + 1);
            let r0 = spec_parse_expression(t, i + 1);
            match r0.0 {
                Ok(_) => {
                    lemma_cur_shift(w, t, r0.1);
                },
                Err(_) => {},
            }
        },
        _ => {},
    }
}

/// A tier fold is unmoved by text standing in front of its tokens.
proof fn shift_power_rest(w: Seq<TokenView>, t: Seq<TokenView>, i: int, acc: ExprView)
    requires
        0 <= i,
    ensures
        spec_parse_power_rest(w + t, w.len() + i, acc) == (
            spec_parse_power_rest(t, i, acc).0,
            w.len() + spec_parse_power_rest(t, i, acc).1,
        ),
    decreases t.len() - i, 1int,
{
    lemma_cur_shift(w, t, i);
    match pow_op_at(t, i) {
        None => {},
        Some(op) => {
            shift_primary(w, t, i + 1);
            let r0 = spec_parse_primary(t, i + 1);
            match r0.0 {
                Ok(right) => {
                    if i < r0.1 <= t.len() {
                        shift_power_rest(
                            w,
                            t,
                            r0.1,
                            ExprView::BinaryOp(Box::new(acc), op, Box::new(right)),
                        );
                    }
                },
                Err(_) => {},
            }
        },
    }
}

/// A power parse is unmoved by text standing in front of its tokens.
proof fn shift_power(w: Seq<TokenView>, t: Seq<TokenView>, i: int)
    requires
        0 <= i,
    ensures
        spec_parse_power(w + t, w.len() + i) == (
            spec_parse_power(t, i).0,
            w.len() + spec_parse_power(t, i).1,
        ),
    decreases t.len() - i, 2int,
{
    shift_primary(w, t, i);
    let r0 = spec_parse_primary(t, i);
    match r0.0 {
        Ok(first) => {
            if i <= r0.1 <= t.len() {
                shift_power_rest(w, t, r0.1, first);
            }
        },
        Err(_) => {},
    }
}

/// A tier fold is unmoved by text standing in front of its tokens.
proof fn shift_factor_rest(w: Seq<TokenView>, t: Seq<TokenView>, i: int, acc: ExprView)
    requires
        0 <= i,
    ensures
        spec_parse_factor_rest(w + t, w.len() + i, acc) == (
            spec_parse_factor_rest(t, i, acc).0,
            w.len() + spec_parse_factor_rest(t, i, acc).1,
        ),
    decreases t.len() - i, 3int,
{
    lemma_cur_shift(w, t, i);
    match mul_op_at(t, i) {
        None => {},
        Some(op) => {
            shift_power(w, t, i + 1);
            let r0 = spec_parse_power(t, i + 1);
            match r0.0 {
                Ok(right) => {
                    if i < r0.1 <= t.len() {
                        shift_factor_rest(
                            w,
                            t,
                            r0.1,
                            ExprView::BinaryOp(Box::new(acc), op, Box::new(right)),
                        );
                    }
                },
                Err(_) => {},
            }
        },
    }
}

/// A factor parse is unmoved by text standing in front of its tokens.
proof fn shift_factor(w: Seq<TokenView>, t: Seq<TokenView>, i: int)
    requires
        0 <= i,
    ensures
        spec_parse_factor(w + t, w.len() + i) == (
            spec_parse_factor(t, i).0,
            w.len() + spec_parse_factor(t, i).1,
        ),
    decreases t.len() - i, 4int,
{
    shift_power(w, t, i);
    let r0 = spec_parse_power(t, i);
    match r0.0 {
        Ok(first) => {
            if i <= r0.1 <= t.len() {
                shift_factor_rest(w, t, r0.1, first);
            }
        },
        Err(_) => {},
    }
}

/// A tier fold is unmoved by text standing in front of its tokens.
proof fn shift_add_sub_rest(w: Seq<TokenView>, t: Seq<TokenView>, i: int, acc: ExprView)
    requires
        0 <= i,
    ensures
        spec_parse_add_sub_rest(w + t, w.len() + i, acc) == (
            spec_parse_add_sub_rest(t, i, acc).0,
            w.len() + spec_parse_add_sub_rest(t, i, acc).1,
        ),
    decreases t.len() - i, 5int,
{
    lemma_cur_shift(w, t, i);
    match add_op_at(t, i) {
        None => {},
        Some(op) => {
            shift_factor(w, t, i + 1);
            let r0 = spec_parse_factor(t, i + 1);
            match r0.0 {
                Ok(right) => {
                    if i < r0.1 <= t.len() {
                        shift_add_sub_rest(
                            w,
                            t,
                            r0.1,
                            ExprView::BinaryOp(Box::new(acc), op, Box::new(right)),
                        );
                    }
                },
                Err(_) => {},
            }
        },
    }
}

/// A add_sub parse is unmoved by text standing in front of its tokens.
proof fn shift_add_sub(w: Seq<TokenView>, t: Seq<TokenView>, i: int)
    requires
        0 <= i,
    ensures
        spec_parse_add_sub(w + t, w.len() + i) == (
            spec_parse_add_sub(t, i).0,
            w.len() + spec_parse_add_sub(t, i).1,
        ),
    decreases t.len() - i, 6int,
{
    shift_factor(w, t, i);
    let r0 = spec_parse_factor(t, i);
    match r0.0 {
        Ok(first) => {
            if i <= r0.1 <= t.len() {
                shift_add_sub_rest(w, t, r0.1, first);
            }
        },
        Err(_) => {},
    }
}

/// A tier fold is unmoved by text standing in front of its tokens.
proof fn shift_comparison_rest(w: Seq<TokenView>, t: Seq<TokenView>, i: int, acc: ExprView)
    requires
        0 <= i,
    ensures
        spec_parse_comparison_rest(w + t, w.len() + i, acc) == (
            spec_parse_comparison_rest(t, i, acc).0,
            w.len() + spec_parse_comparison_rest(t, i, acc).1,
        ),
    decreases t.len() - i, 7int,
{
    lemma_cur_shift(w, t, i);
    match cmp_op_at(t, i) {
        None => {},
        Some(op) => {
            shift_add_sub(w, t, i + 1);
            let r0 = spec_parse_add_sub(t, i + 1);
            match r0.0 {
                Ok(right) => {
                    if i < r0.1 <= t.len() {
                        shift_comparison_rest(
                            w,
                            t,
                            r0.1,
                            ExprView::CompareOp(Box::new(acc), op, Box::new(right)),
                        );
                    }
                },
                Err(_) => {},
            }
        },
    }
}

/// A comparison parse is unmoved by text standing in front of its tokens.
proof fn shift_comparison(w: Seq<TokenView>, t: Seq<TokenView>, i: int)
    requires
        0 <= i,
    ensures
        spec_parse_comparison(w + t, w.len() + i) == (
            spec_parse_comparison(t, i).0,
            w.len() + spec_parse_comparison(t, i).1,
        ),
    decreases t.len() - i, 8int,
{
    shift_add_sub(w, t, i);
    let r0 = spec_parse_add_sub(t, i);
    match r0.0 {
        Ok(first) => {
            if i <= r0.1 <= t.len() {
                shift_comparison_rest(w, t, r0.1, first);
            }
        },
        Err(_) => {},
    }
}

/// A tier fold is unmoved by text standing in front of its tokens.
proof fn shift_logical_and_rest(w: Seq<TokenView>, t: Seq<TokenView>, i: int, acc: ExprView)
    requires
        0 <= i,
    ensures
        spec_parse_logical_and_rest(w + t, w.len() + i, acc) == (
            spec_parse_logical_and_rest(t, i, acc).0,
            w.len() + spec_parse_logical_and_rest(t, i, acc).1,
        ),
    decreases t.len() - i, 9int,
{
    lemma_cur_shift(w, t, i);
    match and_op_at(t, i) {
        None => {},
        Some(op) => {
            shift_comparison(w, t, i + 1);
            let r0 = spec_parse_comparison(t, i + 1);
            match r0.0 {
                Ok(right) => {
                    if i < r0.1 <= t.len() {
                        shift_logical_and_rest(
                            w,
                            t,
                            r0.1,
                            ExprView::CompareOp(Box::new(acc), op, Box::new(right)),
                        );
                    }
                },
                Err(_) => {},
            }
        },
    }
}

/// A logical_and parse is unmoved by text standing in front of its tokens.
proof fn shift_logical_and(w: Seq<TokenView>, t: Seq<TokenView>, i: int)
    requires
        0 <= i,
    ensures
        spec_parse_logical_and(w + t, w.len() + i) == (
            spec_parse_logical_and(t, i).0,
            w.len() + spec_parse_logical_and(t, i).1,
        ),
    decreases t.len() - i, 10int,
{
    shift_comparison(w, t, i);
    let r0 = spec_parse_comparison(t, i);
    match r0.0 {
        Ok(first) => {
            if i <= r0.1 <= t.len() {
                shift_logical_and_rest(w, t, r0.1, first);
            }
        },
        Err(_) => {},
    }
}

/// A tier fold is unmoved by text standing in front of its tokens.
proof fn shift_boolean_rest(w: Seq<TokenView>, t: Seq<TokenView>, i: int, acc: ExprView)
    requires
        0 <= i,
    ensures
        spec_parse_boolean_rest(w + t, w.len() + i, acc) == (
            spec_parse_boolean_rest(t, i, acc).0,
            w.len() + spec_parse_boolean_rest(t, i, acc).1,
        ),
    decreases t.len() - i, 11int,
{
    lemma_cur_shift(w, t, i);
    match or_op_at(t, i) {
        None => {},
        Some(op) => {
            shift_logical_and(w, t, i + 1);
            let r0 = spec_parse_logical_and(t, i + 1);
            match r0.0 {
                Ok(right) => {
                    if i < r0.1 <= t.len() {
                        shift_boolean_rest(
                            w,
                            t,
                            r0.1,
                            ExprView::CompareOp(Box::new(acc), op, Box::new(right)),
                        );
                    }
                },
                Err(_) => {},
            }
        },
    }
}

/// A boolean parse is unmoved by text standing in front of its tokens.
proof fn shift_boolean(w: Seq<TokenView>, t: Seq<TokenView>, i: int)
    requires
        0 <= i,
    ensures
        spec_parse_boolean(w + t, w.len() + i) == (
            spec_parse_boolean(t, i).0,
            w.len() + spec_parse_boolean(t, i).1,
        ),
    decreases t.len() - i, 12int,
{
    shift_logical_and(w, t, i);
    let r0 = spec_parse_logical_and(t, i);
    match r0.0 {
        Ok(first) => {
            if i <= r0.1 <= t.len() {
                shift_boolean_rest(w, t, r0.1, first);
            }
        },
        Err(_) => {},
    }
}

/// An expression parse is unmoved by text standing in front of its tokens.
proof fn shift_expression(w: Seq<TokenView>, t: Seq<TokenView>, i: int)
    requires
        0 <= i,
    ensures
        spec_parse_expression(w + t, w.len() + i) == (
            spec_parse_expression(t, i).0,
            w.len() + spec_parse_expression(t, i).1,
        ),
    decreases t.len() - i, 13int,
{
    shift_boolean(w, t, i);
}

/// A statement parse is unmoved by text standing in front of its tokens.
proof fn shift_assignment(w: Seq<TokenView>, t: Seq<TokenView>, i: int)
    requires
        0 <= i,
    ensures
        spec_parse_assignment(w + t, w.len() + i) == (
            spec_parse_assignment(t, i).0,
            w.len() + spec_parse_assignment(t, i).1,
        ),
    decreases t.len() - i, 14int,
{
    lemma_cur_shift(w, t, i);
    lemma_cur_shift(w, t, i + 1);
    match spec_cur(t, i) {
        TokenView::Identifier(_) => {
            if spec_cur(t, i + 1) is Assign {
                shift_expression(w, t, i + 2);
            }
        },
        _ => {},
    }
}

/// A statement-list parse is unmoved by text standing in front of its
/// tokens.
proof fn shift_stmts(w: Seq<TokenView>, t: Seq<TokenView>, i: int, acc: Seq<StmtView>)
    requires
        0 <= i,
    ensures
        spec_parse_stmts(w + t, w.len() + i, acc) == (
            spec_parse_stmts(t, i, acc).0,
            w.len() + spec_parse_stmts(t, i, acc).1,
        ),
    decreases t.len() - i, 15int,
{
    lemma_cur_shift(w, t, i);
    if i >= t.len() || spec_cur(t, i) is EOF {
    } else {
        shift_assignment(w, t, i);
        let r0 = spec_parse_assignment(t, i);
        match r0.0 {
            Ok(st) => {
                if i < r0.1 <= t.len() {
                    shift_stmts(w, t, r0.1, acc.push(st));
                }
            },
            Err(_) => {},
        }
    }
}

/// The token under a cursor that has not left `t` is unmoved by text
/// standing after `t`; at the very end of `t` the appended text's first
/// token appears in place of the sentinel.
proof fn lemma_cur_extend(t: Seq<TokenView>, u: Seq<TokenView>, i: int)
    requires
        0 <= i <= t.len(),
        u.len() > 0,
    ensures
        i < t.len() ==> spec_cur(t + u, i) == spec_cur(t, i),
        i == t.len() ==> spec_cur(t + u, i) == u[0] && spec_cur(t, i) is EOF,
{
    if i < t.len() {
        assert((t + u)[i] == t[i]);
    } else {
        assert((t + u)[i] == u[0]);
    }
}

/// A successful primary parse is unmoved by text standing after `t`, as long
/// as that text does not begin with an operator.
proof fn extend_primary(t: Seq<TokenView>, u: Seq<TokenView>, i: int)
    requires
        0 <= i <= t.len(),
        u.len() > 0,
        !(u[0] is Operator),
    ensures
        spec_parse_primary(t, i).0 is Ok ==> spec_parse_primary(t + u, i) == spec_parse_primary(
            t,
            i,
        ),
    decreases t.len() - i, 0int,
{
    lemma_cur_extend(t, u, i);
    match spec_cur(t, i) {
        TokenView::OpenParen => {
            advances_expression(t, i + 1);
            let r0 = spec_parse_expression(t, i + 1);
            match r0.0 {
                Ok(_) => {
                    extend_expression(t, u, i + 1);
                    if spec_cur(t, r0.1) is CloseParen {
                        lemma_cur_extend(t, u, r0.1);
                    }
                },
                Err(_) => {},
            }
        },
        _ => {},
    }
}

/// A successful tier fold is unmoved by text standing after `t`, as long as
/// that text does not begin with an operator.
proof fn extend_power_rest(t: Seq<TokenView>, u: Seq<TokenView>, i: int, acc: ExprView)
    requires
        0 <= i <= t.len(),
        u.len() > 0,
        !(u[0] is Operator),
    ensures
        spec_parse_power_rest(t, i, acc).0 is Ok ==> spec_parse_power_rest(t + u, i, acc)
            == spec_parse_power_rest(t, i, acc),
    decreases t.len() - i, 1int,
{
    lemma_cur_extend(t, u, i);
    match pow_op_at(t, i) {
        None => {},
        Some(op) => {
            advances_primary(t, i + 1);
            let r0 = spec_parse_primary(t, i + 1);
            match r0.0 {
                Ok(right) => {
                    extend_primary(t, u, i + 1);
                    if i < r0.1 <= t.len() {
                        extend_power_rest(
                            t,
                            u,
                            r0.1,
                            ExprView::BinaryOp(Box::new(acc), op, Box::new(right)),
                        );
                    }
                },
                Err(_) => {},
            }
        },
    }
}

/// A successful power parse is unmoved by text standing after `t`, as long
/// as that text does not begin with an operator.
proof fn extend_power(t: Seq<TokenView>, u: Seq<TokenView>, i: int)
    requires
        0 <= i <= t.len(),
        u.len() > 0,
        !(u[0] is Operator),
    ensures
        spec_parse_power(t, i).0 is Ok ==> spec_parse_power(t + u, i) == spec_parse_power(t, i),
    decreases t.len() - i, 2int,
{
    advances_primary(t, i);
    let r0 = spec_parse_primary(t, i);
    match r0.0 {
        Ok(first) => {
            extend_primary(t, u, i);
            if i <= r0.1 <= t.len() {
                extend_power_rest(t, u, r0.1, first);
            }
        },
        Err(_) => {},
    }
}

/// A successful tier fold is unmoved by text standing after `t`, as long as
/// that text does not begin with an operator.
proof fn extend_factor_rest(t: Seq<TokenView>, u: Seq<TokenView>, i: int, acc: ExprView)
    requires
        0 <= i <= t.len(),
        u.len() > 0,
        !(u[0] is Operator),
    ensures
        spec_parse_factor_rest(t, i, acc).0 is Ok ==> spec_parse_factor_rest(t + u, i, acc)
            == spec_parse_factor_rest(t, i, acc),
    decreases t.len() - i, 3int,
{
    lemma_cur_extend(t, u, i);
    match mul_op_at(t, i) {
        None => {},
        Some(op) => {
            advances_power(t, i + 1);
            let r0 = spec_parse_power(t, i + 1);
            match r0.0 {
                Ok(right) => {
                    extend_power(t, u, i + 1);
                    if i < r0.1 <= t.len() {
                        extend_factor_rest(
                            t,
                            u,
                            r0.1,
                            ExprView::BinaryOp(Box::new(acc), op, Box::new(right)),
                        );
                    }
                },
                Err(_) => {},
            }
        },
    }
}

/// A successful factor parse is unmoved by text standing after `t`, as long
/// as that text does not begin with an operator.
proof fn extend_factor(t: Seq<TokenView>, u: Seq<TokenView>, i: int)
    requires
        0 <= i <= t.len(),
        u.len() > 0,
        !(u[0] is Operator),
    ensures
        spec_parse_factor(t, i).0 is Ok ==> spec_parse_factor(t + u, i) == spec_parse_factor(t, i),
    decreases t.len() - i, 4int,
{
    advances_power(t, i);
    let r0 = spec_parse_power(t, i);
    match r0.0 {
        Ok(first) => {
            extend_power(t, u, i);
            if i <= r0.1 <= t.len() {
                extend_factor_rest(t, u, r0.1, first);
            }
        },
        Err(_) => {},
    }
}

/// A successful tier fold is unmoved by text standing after `t`, as long as
/// that text does not begin with an operator.
proof fn extend_add_sub_rest(t: Seq<TokenView>, u: Seq<TokenView>, i: int, acc: ExprView)
    requires
        0 <= i <= t.len(),
        u.len() > 0,
        !(u[0] is Operator),
    ensures
        spec_parse_add_sub_rest(t, i, acc).0 is Ok ==> spec_parse_add_sub_rest(t + u, i, acc)
            == spec_parse_add_sub_rest(t, i, acc),
    decreases t.len() - i, 5int,
{
    lemma_cur_extend(t, u, i);
    match add_op_at(t, i) {
        None => {},
        Some(op) => {
            advances_factor(t, i + 1);
            let r0 = spec_parse_factor(t, i + 1);
            match r0.0 {
                Ok(right) => {
                    extend_factor(t, u, i + 1);
                    if i < r0.1 <= t.len() {
                        extend_add_sub_rest(
                            t,
                            u,
                            r0.1,
                            ExprView::BinaryOp(Box::new(acc), op, Box::new(right)),
                        );
                    }
                },
                Err(_) => {},
            }
        },
    }
}

/// A successful add_sub parse is unmoved by text standing after `t`, as long
/// as that text does not begin with an operator.
proof fn extend_add_sub(t: Seq<TokenView>, u: Seq<TokenView>, i: int)
    requires
        0 <= i <= t.len(),
        u.len() > 0,
        !(u[0] is Operator),
    ensures
        spec_parse_add_sub(t, i).0 is Ok ==> spec_parse_add_sub(t + u, i) == spec_parse_add_sub(t, i),
    decreases t.len() - i, 6int,
{
    advances_factor(t, i);
    let r0 = spec_parse_factor(t, i);
    match r0.0 {
        Ok(first) => {
            extend_factor(t, u, i);
            if i <= r0.1 <= t.len() {
                extend_add_sub_rest(t, u, r0.1, first);
            }
        },
        Err(_) => {},
    }
}

/// A successful tier fold is unmoved by text standing after `t`, as long as
/// that text does not begin with an operator.
proof fn extend_comparison_rest(t: Seq<TokenView>, u: Seq<TokenView>, i: int, acc: ExprView)
    requires
        0 <= i <= t.len(),
        u.len() > 0,
        !(u[0] is Operator),
    ensures
        spec_parse_comparison_rest(t, i, acc).0 is Ok ==> spec_parse_comparison_rest(t + u, i, acc)
            == spec_parse_comparison_rest(t, i, acc),
    decreases t.len() - i, 7int,
{
    lemma_cur_extend(t, u, i);
    match cmp_op_at(t, i) {
        None => {},
        Some(op) => {
            advances_add_sub(t, i + 1);
            let r0 = spec_parse_add_sub(t, i + 1);
            match r0.0 {
                Ok(right) => {
                    extend_add_sub(t, u, i + 1);
                    if i < r0.1 <= t.len() {
                        extend_comparison_rest(
                            t,
                            u,
                            r0.1,
                            ExprView::CompareOp(Box::new(acc), op, Box::new(right)),
                        );
                    }
                },
                Err(_) => {},
            }
        },
    }
}

/// A successful comparison parse is unmoved by text standing after `t`, as long
/// as that text does not begin with an operator.
proof fn extend_comparison(t: Seq<TokenView>, u: Seq<TokenView>, i: int)
    requires
        0 <= i <= t.len(),
        u.len() > 0,
        !(u[0] is Operator),
    ensures
        spec_parse_comparison(t, i).0 is Ok ==> spec_parse_comparison(t + u, i) == spec_parse_comparison(t, i),
    decreases t.len() - i, 8int,
{
    advances_add_sub(t, i);
    let r0 = spec_parse_add_sub(t, i);
    match r0.0 {
        Ok(first) => {
            extend_add_sub(t, u, i);
            if i <= r0.1 <= t.len() {
                extend_comparison_rest(t, u, r0.1, first);
            }
        },
        Err(_) => {},
    }
}

/// A successful tier fold is unmoved by text standing after `t`, as long as
/// that text does not begin with an operator.
proof fn extend_logical_and_rest(t: Seq<TokenView>, u: Seq<TokenView>, i: int, acc: ExprView)
    requires
        0 <= i <= t.len(),
        u.len() > 0,
        !(u[0] is Operator),
    ensures
        spec_parse_logical_and_rest(t, i, acc).0 is Ok ==> spec_parse_logical_and_rest(t + u, i, acc)
            == spec_parse_logical_and_rest(t, i, acc),
    decreases t.len() - i, 9int,
{
    lemma_cur_extend(t, u, i);
    match and_op_at(t, i) {
        None => {},
        Some(op) => {
            advances_comparison(t, i + 1);
            let r0 = spec_parse_comparison(t, i + 1);
            match r0.0 {
                Ok(right) => {
                    extend_comparison(t, u, i + 1);
                    if i < r0.1 <= t.len() {
                        extend_logical_and_rest(
                            t,
                            u,
                            r0.1,
                            ExprView::CompareOp(Box::new(acc), op, Box::new(right)),
                        );
                    }
                },
                Err(_) => {},
            }
        },
    }
}

/// A successful logical_and parse is unmoved by text standing after `t`, as long
/// as that text does not begin with an operator.
proof fn extend_logical_and(t: Seq<TokenView>, u: Seq<TokenView>, i: int)
    requires
        0 <= i <= t.len(),
        u.len() > 0,
        !(u[0] is Operator),
    ensures
        spec_parse_logical_and(t, i).0 is Ok ==> spec_parse_logical_and(t + u, i) == spec_parse_logical_and(t, i),
    decreases t.len() - i, 10int,
{
    advances_comparison(t, i);
    let r0 = spec_parse_comparison(t, i);
    match r0.0 {
        Ok(first) => {
            extend_comparison(t, u, i);
            if i <= r0.1 <= t.len() {
                extend_logical_and_rest(t, u, r0.1, first);
            }
        },
        Err(_) => {},
    }
}

/// A successful tier fold is unmoved by text standing after `t`, as long as
/// that text does not begin with an operator.
proof fn extend_boolean_rest(t: Seq<TokenView>, u: Seq<TokenView>, i: int, acc: ExprView)
    requires
        0 <= i <= t.len(),
        u.len() > 0,
        !(u[0] is Operator),
    ensures
        spec_parse_boolean_rest(t, i, acc).0 is Ok ==> spec_parse_boolean_rest(t + u, i, acc)
            == spec_parse_boolean_rest(t, i, acc),
    decreases t.len() - i, 11int,
{
    lemma_cur_extend(t, u, i);
    match or_op_at(t, i) {
        None => {},
        Some(op) => {
            advances_logical_and(t, i + 1);
            let r0 = spec_parse_logical_and(t, i + 1);
            match r0.0 {
                Ok(right) => {
                    extend_logical_and(t, u, i + 1);
                    if i < r0.1 <= t.len() {
                        extend_boolean_rest(
                            t,
                            u,
                            r0.1,
                            ExprView::CompareOp(Box::new(acc), op, Box::new(right)),
                        );
                    }
                },
                Err(_) => {},
            }
        },
    }
}

/// A successful boolean parse is unmoved by text standing after `t`, as long
/// as that text does not begin with an operator.
proof fn extend_boolean(t: Seq<TokenView>, u: Seq<TokenView>, i: int)
    requires
        0 <= i <= t.len(),
        u.len() > 0,
        !(u[0] is Operator),
    ensures
        spec_parse_boolean(t, i).0 is Ok ==> spec_parse_boolean(t + u, i) == spec_parse_boolean(t, i),
    decreases t.len() - i, 12int,
{
    advances_logical_and(t, i);
    let r0 = spec_parse_logical_and(t, i);
    match r0.0 {
        Ok(first) => {
            extend_logical_and(t, u, i);
            if i <= r0.1 <= t.len() {
                extend_boolean_rest(t, u, r0.1, first);
            }
        },
        Err(_) => {},
    }
}

/// A successful expression parse is unmoved by text standing after `t`, as
/// long as that text does not begin with an operator.
proof fn extend_expression(t: Seq<TokenView>, u: Seq<TokenView>, i: int)
    requires
        0 <= i <= t.len(),
        u.len() > 0,
        !(u[0] is Operator),
    ensures
        spec_parse_expression(t, i).0 is Ok ==> spec_parse_expression(t + u, i)
            == spec_parse_expression(t, i),
    decreases t.len() - i, 13int,
{
    extend_boolean(t, u, i);
}

/// A successful statement parse is unmoved by text standing after `t`, as
/// long as that text does not begin with an operator.
proof fn extend_assignment(t: Seq<TokenView>, u: Seq<TokenView>, i: int)
    requires
        0 <= i <= t.len(),
        u.len() > 0,
        !(u[0] is Operator),
    ensures
        spec_parse_assignment(t, i).0 is Ok ==> spec_parse_assignment(t + u, i)
            == spec_parse_assignment(t, i),
    decreases t.len() - i, 14int,
{
    lemma_cur_extend(t, u, i);
    match spec_cur(t, i) {
        TokenView::Identifier(_) => {
            lemma_cur_extend(t, u, i + 1);
            if spec_cur(t, i + 1) is Assign {
                extend_expression(t, u, i + 2);
            }
        },
        _ => {},
    }
}

/// A statement-list parse over a sequence without sentinels that ends in
/// success consumes the whole sequence.
proof fn lemma_stmts_consume_all(t: Seq<TokenView>, i: int, acc: Seq<StmtView>)
    requires
        0 <= i <= t.len(),
        forall|k: int| 0 <= k < t.len() ==> !(#[trigger] t[k] is EOF),
    ensures
        spec_parse_stmts(t, i, acc).0 is Ok ==> spec_parse_stmts(t, i, acc).1 == t.len(),
    decreases t.len() - i,
{
    if i >= t.len() || spec_cur(t, i) is EOF {
    } else {
        advances_assignment(t, i);
        let r0 = spec_parse_assignment(t, i);
        match r0.0 {
            Ok(st) => {
                if i < r0.1 <= t.len() {
                    lemma_stmts_consume_all(t, r0.1, acc.push(st));
                }
            },
            Err(_) => {},
        }
    }
}

/// The statements a statement-list parse appends do not depend on what was
/// collected before: with another accumulator, the same statements follow it.
proof fn lemma_stmts_acc(t: Seq<TokenView>, i: int, acc: Seq<StmtView>)
    requires
        0 <= i,
    ensures
        spec_parse_stmts(t, i, acc).1 == spec_parse_stmts(t, i, Seq::empty()).1,
        (match spec_parse_stmts(t, i, Seq::empty()).0 {
            Ok(ss) => spec_parse_stmts(t, i, acc).0 == Ok::<Seq<StmtView>, ParseErrorView>(
                acc + ss,
            ),
            Err(e) => spec_parse_stmts(t, i, acc).0 == Err::<Seq<StmtView>, ParseErrorView>(e),
        }),
    decreases t.len() - i,
{
    if i >= t.len() || spec_cur(t, i) is EOF {
        assert(acc + Seq::<StmtView>::empty() =~= acc);
    } else {
        let r0 = spec_parse_assignment(t, i);
        match r0.0 {
            Ok(st) => {
                if i < r0.1 <= t.len() {
                    lemma_stmts_acc(t, r0.1, Seq::empty().push(st));
                    lemma_stmts_acc(t, r0.1, acc.push(st));
                    let inner = spec_parse_stmts(t, r0.1, Seq::empty());
                    match inner.0 {
                        Ok(ss) => {
                            assert(acc.push(st) + ss =~= acc + (Seq::empty().push(st) + ss));
                        },
                        Err(_) => {},
                    }
                } else {
                    assert(acc.push(st) =~= acc + Seq::empty().push(st));
                }
            },
            Err(_) => {},
        }
    }
}

/// Parsing the statements of `t1 + t2` from a statement boundary inside
/// `t1`: the statements of `t1` come first, then those of `t2`, appended to
/// the accumulator in source order.
proof fn lemma_stmts_concat(
    t1: Seq<TokenView>,
    t2: Seq<TokenView>,
    i: int,
    acc: Seq<StmtView>,
    ss: Seq<StmtView>,
)
    requires
        0 <= i <= t1.len(),
        forall|k: int| 0 <= k < t1.len() ==> !(#[trigger] t1[k] is EOF),
        t2.len() > 0,
        !(t2[0] is Operator),
        spec_parse_stmts(t1, i, acc).0 == Ok::<Seq<StmtView>, ParseErrorView>(ss),
    ensures
        spec_parse_stmts(t1 + t2, i, acc) == (
            spec_parse_stmts(t2, 0, ss).0,
            t1.len() + spec_parse_stmts(t2, 0, ss).1,
        ),
    decreases t1.len() - i,
{
    lemma_cur_extend(t1, t2, i);
    if i >= t1.len() || spec_cur(t1, i) is EOF {
        assert(i == t1.len());
        assert(ss == acc);
        shift_stmts(t1, t2, 0, acc);
    } else {
        advances_assignment(t1, i);
        let r0 = spec_parse_assignment(t1, i);
        match r0.0 {
            Ok(st) => {
                extend_assignment(t1, t2, i);
                if i < r0.1 <= t1.len() {
                    lemma_stmts_concat(t1, t2, r0.1, acc.push(st), ss);
                }
            },
            Err(_) => {},
        }
    }
}

/// The concatenation law: programs preserve source order.  Joining two
/// well-parsed programs end to end parses to the two statement lists joined
/// end to end — every statement of the first program before every statement
/// of the second, each list in its own source order.  The first program's
/// tokens must not contain the sentinel, which only ends a whole sequence.
pub proof fn lemma_programs_concatenate(
    t1: Seq<TokenView>,
    t2: Seq<TokenView>,
    s1: Seq<StmtView>,
    s2: Seq<StmtView>,
)
    requires
        spec_parse_program(t1) == Ok::<Seq<StmtView>, ParseErrorView>(s1),
        spec_parse_program(t2) == Ok::<Seq<StmtView>, ParseErrorView>(s2),
        forall|k: int| 0 <= k < t1.len() ==> !(#[trigger] t1[k] is EOF),
    ensures
        spec_parse_program(t1 + t2) == Ok::<Seq<StmtView>, ParseErrorView>(s1 + s2),
{
    if t2.len() == 0 {
        assert(t1 + t2 =~= t1);
        assert(s2 =~= Seq::<StmtView>::empty());
        assert(s1 + s2 =~= s1);
    } else {
        assert(!(t2[0] is Operator)) by {
            if !(spec_cur(t2, 0) is EOF) {
                if !(spec_cur(t2, 0) is Identifier) {
                    assert(spec_parse_assignment(t2, 0).0 is Err);
                    assert(spec_parse_program(t2) is Err);
                }
            }
        }
        lemma_stmts_concat(t1, t2, 0, Seq::empty(), s1);
        lemma_stmts_acc(t2, 0, s1);
        assert(spec_parse_stmts(t2, 0, s1).0 == Ok::<Seq<StmtView>, ParseErrorView>(s1 + s2));
    }
}

} // verus!
