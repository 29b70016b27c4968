//! The grammar: a mathematical description of the recursive-descent parse.
//!
//! One spec function per precedence tier, loosest binding first:
//!
//! ```text
//! program      := statement* EOF
//! statement    := Identifier Assign expression
//! expression   := boolean
//! boolean      := logical_and ("||" logical_and)*
//! logical_and  := comparison ("&&" comparison)*
//! comparison   := add_sub (("==" | "!=" | "<" | "<=" | ">" | ">=") add_sub)*
//! add_sub      := factor (("+" | "-") factor)*
//! factor       := power (("*" | "/" | "//" | "%") power)*
//! power        := primary ("**" primary)*
//! primary      := Number | Identifier | StringLiteral | Boolean
//!               | "(" expression ")"
//! ```
//!
//! Every starred tier folds left, so every operator is left-associative,
//! `**` included.  Each function takes the token sequence and a cursor and
//! returns the parse outcome together with the cursor after the parse; the
//! cursor only moves forward, and a successful sub-parse always consumes at
//! least one token.
use vstd::prelude::*;

use crate::ast::BinaryOperator;
use crate::ast::CompareOperator;
use crate::ast::ExprView;
use crate::ast::ParseErrorView;
use crate::ast::StmtView;
use crate::token::TokenView;

verus! {

/// The token under the cursor; the `EOF` sentinel when the cursor is past
/// the end.
pub open spec fn spec_cur(t: Seq<TokenView>, i: int) -> TokenView {
    if 0 <= i < t.len() {
        t[i]
    } else {
        TokenView::EOF
    }
}

/// The operator of the power tier, if `s` is its symbol.
pub open spec fn pow_op(s: Seq<char>) -> Option<BinaryOperator> {
    if s == "**"@ {
        Some(BinaryOperator::Power)
    } else {
        None
    }
}

/// The operator of the multiplicative tier, if `s` is one of its symbols.
pub open spec fn mul_op(s: Seq<char>) -> Option<BinaryOperator> {
    if s == "*"@ {
        Some(BinaryOperator::Multiply)
    } else if s == "/"@ {
        Some(BinaryOperator::Divide)
    } else if s == "//"@ {
        Some(BinaryOperator::FloorDivide)
    } else if s == "%"@ {
        Some(BinaryOperator::Modulus)
    } else {
        None
    }
}

/// The operator of the additive tier, if `s` is one of its symbols.
pub open spec fn add_op(s: Seq<char>) -> Option<BinaryOperator> {
    if s == "+"@ {
        Some(BinaryOperator::Add)
    } else if s == "-"@ {
        Some(BinaryOperator::Subtract)
    } else {
        None
    }
}

/// The operator of the comparison tier, if `s` is one of its symbols.
pub open spec fn cmp_op(s: Seq<char>) -> Option<CompareOperator> {
    if s == "=="@ {
        Some(CompareOperator::Equal)
    } else if s == "!="@ {
        Some(CompareOperator::NotEqual)
    } else if s == "<"@ {
        Some(CompareOperator::LessThan)
    } else if s == "<="@ {
        Some(CompareOperator::LessEqual)
    } else if s == ">"@ {
        Some(CompareOperator::GreaterThan)
    } else if s == ">="@ {
        Some(CompareOperator::GreaterEqual)
    } else {
        None
    }
}

/// The operator of the logical-and tier, if `s` is its symbol.
pub open spec fn and_op(s: Seq<char>) -> Option<CompareOperator> {
    if s == "&&"@ {
        Some(CompareOperator::And)
    } else {
        None
    }
}

/// The operator of the logical-or tier, if `s` is its symbol.
pub open spec fn or_op(s: Seq<char>) -> Option<CompareOperator> {
    if s == "||"@ {
        Some(CompareOperator::Or)
    } else {
        None
    }
}

/// The power operator under the cursor, if any.
pub open spec fn pow_op_at(t: Seq<TokenView>, i: int) -> Option<BinaryOperator> {
    match spec_cur(t, i) {
        TokenView::Operator(s) => pow_op(s),
        _ => None,
    }
}

/// The multiplicative operator under the cursor, if any.
pub open spec fn mul_op_at(t: Seq<TokenView>, i: int) -> Option<BinaryOperator> {
    match spec_cur(t, i) {
        TokenView::Operator(s) => mul_op(s),
        _ => None,
    }
}

/// The additive operator under the cursor, if any.
pub open spec fn add_op_at(t: Seq<TokenView>, i: int) -> Option<BinaryOperator> {
    match spec_cur(t, i) {
        TokenView::Operator(s) => add_op(s),
        _ => None,
    }
}

/// The comparison operator under the cursor, if any.
pub open spec fn cmp_op_at(t: Seq<TokenView>, i: int) -> Option<CompareOperator> {
    match spec_cur(t, i) {
        TokenView::Operator(s) => cmp_op(s),
        _ => None,
    }
}

/// The logical-and operator under the cursor, if any.
pub open spec fn and_op_at(t: Seq<TokenView>, i: int) -> Option<CompareOperator> {
    match spec_cur(t, i) {
        TokenView::Operator(s) => and_op(s),
        _ => None,
    }
}

/// The logical-or operator under the cursor, if any.
pub open spec fn or_op_at(t: Seq<TokenView>, i: int) -> Option<CompareOperator> {
    match spec_cur(t, i) {
        TokenView::Operator(s) => or_op(s),
        _ => None,
    }
}

/// How each of the fifteen operator symbols is classified by each tier:
/// every symbol belongs to exactly one tier of the grammar.
pub proof fn lemma_op_table()
    ensures
        pow_op("**"@) == Some(BinaryOperator::Power),
        mul_op("*"@) == Some(BinaryOperator::Multiply),
        mul_op("/"@) == Some(BinaryOperator::Divide),
        mul_op("//"@) == Some(BinaryOperator::FloorDivide),
        mul_op("%"@) == Some(BinaryOperator::Modulus),
        add_op("+"@) == Some(BinaryOperator::Add),
        add_op("-"@) == Some(BinaryOperator::Subtract),
        cmp_op("=="@) == Some(CompareOperator::Equal),
        cmp_op("!="@) == Some(CompareOperator::NotEqual),
        cmp_op("<"@) == Some(CompareOperator::LessThan),
        cmp_op("<="@) == Some(CompareOperator::LessEqual),
        cmp_op(">"@) == Some(CompareOperator::GreaterThan),
        cmp_op(">="@) == Some(CompareOperator::GreaterEqual),
        and_op("&&"@) == Some(CompareOperator::And),
        or_op("||"@) == Some(CompareOperator::Or),
        forall|s: Seq<char>| #[trigger] pow_op(s) is Some ==> mul_op(s) is None && add_op(s)
            is None && cmp_op(s) is None && and_op(s) is None && or_op(s) is None,
        forall|s: Seq<char>| #[trigger] mul_op(s) is Some ==> pow_op(s) is None && add_op(s)
            is None && cmp_op(s) is None && and_op(s) is None && or_op(s) is None,
        forall|s: Seq<char>| #[trigger] add_op(s) is Some ==> pow_op(s) is None && mul_op(s)
            is None && cmp_op(s) is None && and_op(s) is None && or_op(s) is None,
        forall|s: Seq<char>| #[trigger] cmp_op(s) is Some ==> pow_op(s) is None && mul_op(s)
            is None && add_op(s) is None && and_op(s) is None && or_op(s) is None,
        forall|s: Seq<char>| #[trigger] and_op(s) is Some ==> pow_op(s) is None && mul_op(s)
            is None && add_op(s) is None && cmp_op(s) is None && or_op(s) is None,
        forall|s: Seq<char>| #[trigger] or_op(s) is Some ==> pow_op(s) is None && mul_op(s)
            is None && add_op(s) is None && cmp_op(s) is None && and_op(s) is None,
{
    reveal_strlit("+");
    reveal_strlit("-");
    reveal_strlit("*");
    reveal_strlit("/");
    reveal_strlit("%");
    reveal_strlit("**");
    reveal_strlit("//");
    reveal_strlit("==");
    reveal_strlit("!=");
    reveal_strlit("<");
    reveal_strlit("<=");
    reveal_strlit(">");
    reveal_strlit(">=");
    reveal_strlit("&&");
    reveal_strlit("||");
    assert("+"@.len() == 1 && "+"@[0] == '+');
    assert("-"@.len() == 1 && "-"@[0] == '-');
    assert("*"@.len() == 1 && "*"@[0] == '*');
    assert("/"@.len() == 1 && "/"@[0] == '/');
    assert("%"@.len() == 1 && "%"@[0] == '%');
    assert("<"@.len() == 1 && "<"@[0] == '<');
    assert(">"@.len() == 1 && ">"@[0] == '>');
    assert("**"@.len() == 2 && "**"@[0] == '*' && "**"@[1] == '*');
    assert("//"@.len() == 2 && "//"@[0] == '/' && "//"@[1] == '/');
    assert("=="@.len() == 2 && "=="@[0] == '=' && "=="@[1] == '=');
    assert("!="@.len() == 2 && "!="@[0] == '!' && "!="@[1] == '=');
    assert("<="@.len() == 2 && "<="@[0] == '<' && "<="@[1] == '=');
    assert(">="@.len() == 2 && ">="@[0] == '>' && ">="@[1] == '=');
    assert("&&"@.len() == 2 && "&&"@[0] == '&' && "&&"@[1] == '&');
    assert("||"@.len() == 2 && "||"@[0] == '|' && "||"@[1] == '|');
}

/// A primary expression: a literal, a variable, or a parenthesized
/// expression.  Any other token is an `UnexpectedToken` error carrying that
/// token; a missing `)` is a `MismatchParenthesis` error.
pub open spec fn spec_parse_primary(t: Seq<TokenView>, i: int) -> (Result<
    ExprView,
    ParseErrorView,
>, int)
    decreases t.len() - i, 0int,
{
    match spec_cur(t, i) {
        TokenView::Number(n) => (Ok(ExprView::Number(n)), i + 1),
        TokenView::Identifier(name) => (Ok(ExprView::Variable(name)), i + 1),
        TokenView::StringLiteral(v) => (Ok(ExprView::StringLiteral(v)), i + 1),
        TokenView::Boolean(b) => (Ok(ExprView::Boolean(b)), i + 1),
        TokenView::OpenParen => {
            let r = spec_parse_expression(t, i + 1);
            match r.0 {
                Err(e) => (Err(e), r.1),
                Ok(inner) => if spec_cur(t, r.1) is CloseParen {
                    (Ok(inner), r.1 + 1)
                } else {
                    (Err(ParseErrorView::MismatchParenthesis), r.1)
                },
            }
        },
        tok => (Err(ParseErrorView::UnexpectedToken(tok)), i),
    }
}

/// Folds `("**" primary)*` onto `acc`, left to right.
pub open spec fn spec_parse_power_rest(t: Seq<TokenView>, i: int, acc: ExprView) -> (Result<
    ExprView,
    ParseErrorView,
>, int)
    decreases t.len() - i, 1int,
{
    match pow_op_at(t, i) {
        None => (Ok(acc), i),
        Some(op) => {
            let r = spec_parse_primary(t, i + 1);
            match r.0 {
                Err(e) => (Err(e), r.1),
                Ok(right) => if i < r.1 <= t.len() {
                    spec_parse_power_rest(
                        t,
                        r.1,
                        ExprView::BinaryOp(Box::new(acc), op, Box::new(right)),
                    )
                } else {
                    (Ok(acc), i)  // never reached: a successful operand parse advances
                },
            }
        },
    }
}

/// The power tier: `primary ("**" primary)*`.
pub open spec fn spec_parse_power(t: Seq<TokenView>, i: int) -> (Result<
    ExprView,
    ParseErrorView,
>, int)
    decreases t.len() - i, 2int,
{
    let r = spec_parse_primary(t, i);
    match r.0 {
        Err(e) => (Err(e), r.1),
        Ok(first) => if i <= r.1 <= t.len() {
            spec_parse_power_rest(t, r.1, first)
        } else {
            (Ok(first), r.1)  // never reached: the cursor only moves forward
        },
    }
}

/// Folds `(("*" | "/" | "//" | "%") power)*` onto `acc`, left to right.
pub open spec fn spec_parse_factor_rest(t: Seq<TokenView>, i: int, acc: ExprView) -> (Result<
    ExprView,
    ParseErrorView,
>, int)
    decreases t.len() - i, 3int,
{
    match mul_op_at(t, i) {
        None => (Ok(acc), i),
        Some(op) => {
            let r = spec_parse_power(t, i + 1);
            match r.0 {
                Err(e) => (Err(e), r.1),
                Ok(right) => if i < r.1 <= t.len() {
                    spec_parse_factor_rest(
                        t,
                        r.1,
                        ExprView::BinaryOp(Box::new(acc), op, Box::new(right)),
                    )
                } else {
                    (Ok(acc), i)  // never reached: a successful operand parse advances
                },
            }
        },
    }
}

/// The multiplicative tier: `power (("*" | "/" | "//" | "%") power)*`.
pub open spec fn spec_parse_factor(t: Seq<TokenView>, i: int) -> (Result<
    ExprView,
    ParseErrorView,
>, int)
    decreases t.len() - i, 4int,
{
    let r = spec_parse_power(t, i);
    match r.0 {
        Err(e) => (Err(e), r.1),
        Ok(first) => if i <= r.1 <= t.len() {
            spec_parse_factor_rest(t, r.1, first)
        } else {
            (Ok(first), r.1)  // never reached: the cursor only moves forward
        },
    }
}

/// Folds `(("+" | "-") factor)*` onto `acc`, left to right.
pub open spec fn spec_parse_add_sub_rest(t: Seq<TokenView>, i: int, acc: ExprView) -> (Result<
    ExprView,
    ParseErrorView,
>, int)
    decreases t.len() - i, 5int,
{
    match add_op_at(t, i) {
        None => (Ok(acc), i),
        Some(op) => {
            let r = spec_parse_factor(t, i + 1);
            match r.0 {
                Err(e) => (Err(e), r.1),
                Ok(right) => if i < r.1 <= t.len() {
                    spec_parse_add_sub_rest(
                        t,
                        r.1,
                        ExprView::BinaryOp(Box::new(acc), op, Box::new(right)),
                    )
                } else {
                    (Ok(acc), i)  // never reached: a successful operand parse advances
                },
            }
        },
    }
}

/// The additive tier: `factor (("+" | "-") factor)*`.
pub open spec fn spec_parse_add_sub(t: Seq<TokenView>, i: int) -> (Result<
    ExprView,
    ParseErrorView,
>, int)
    decreases t.len() - i, 6int,
{
    let r = spec_parse_factor(t, i);
    match r.0 {
        Err(e) => (Err(e), r.1),
        Ok(first) => if i <= r.1 <= t.len() {
            spec_parse_add_sub_rest(t, r.1, first)
        } else {
            (Ok(first), r.1)  // never reached: the cursor only moves forward
        },
    }
}

/// Folds `(("==" | "!=" | "<" | "<=" | ">" | ">=") add_sub)*` onto `acc`,
/// left to right.
pub open spec fn spec_parse_comparison_rest(t: Seq<TokenView>, i: int, acc: ExprView) -> (Result<
    ExprView,
    ParseErrorView,
>, int)
    decreases t.len() - i, 7int,
{
    match cmp_op_at(t, i) {
        None => (Ok(acc), i),
        Some(op) => {
            let r = spec_parse_add_sub(t, i + 1);
            match r.0 {
                Err(e) => (Err(e), r.1),
                Ok(right) => if i < r.1 <= t.len() {
                    spec_parse_comparison_rest(
                        t,
                        r.1,
                        ExprView::CompareOp(Box::new(acc), op, Box::new(right)),
                    )
                } else {
                    (Ok(acc), i)  // never reached: a successful operand parse advances
                },
            }
        },
    }
}

/// The comparison tier: `add_sub (relational add_sub)*`.
pub open spec fn spec_parse_comparison(t: Seq<TokenView>, i: int) -> (Result<
    ExprView,
    ParseErrorView,
>, int)
    decreases t.len() - i, 8int,
{
    let r = spec_parse_add_sub(t, i);
    match r.0 {
        Err(e) => (Err(e), r.1),
        Ok(first) => if i <= r.1 <= t.len() {
            spec_parse_comparison_rest(t, r.1, first)
        } else {
            (Ok(first), r.1)  // never reached: the cursor only moves forward
        },
    }
}

/// Folds `("&&" comparison)*` onto `acc`, left to right.
pub open spec fn spec_parse_logical_and_rest(t: Seq<TokenView>, i: int, acc: ExprView) -> (Result<
    ExprView,
    ParseErrorView,
>, int)
    decreases t.len() - i, 9int,
{
    match and_op_at(t, i) {
        None => (Ok(acc), i),
        Some(op) => {
            let r = spec_parse_comparison(t, i + 1);
            match r.0 {
                Err(e) => (Err(e), r.1),
                Ok(right) => if i < r.1 <= t.len() {
                    spec_parse_logical_and_rest(
                        t,
                        r.1,
                        ExprView::CompareOp(Box::new(acc), op, Box::new(right)),
                    )
                } else {
                    (Ok(acc), i)  // never reached: a successful operand parse advances
                },
            }
        },
    }
}

/// The logical-and tier: `comparison ("&&" comparison)*`.
pub open spec fn spec_parse_logical_and(t: Seq<TokenView>, i: int) -> (Result<
    ExprView,
    ParseErrorView,
>, int)
    decreases t.len() - i, 10int,
{
    let r = spec_parse_comparison(t, i);
    match r.0 {
        Err(e) => (Err(e), r.1),
        Ok(first) => if i <= r.1 <= t.len() {
            spec_parse_logical_and_rest(t, r.1, first)
        } else {
            (Ok(first), r.1)  // never reached: the cursor only moves forward
        },
    }
}

/// Folds `("||" logical_and)*` onto `acc`, left to right.
pub open spec fn spec_parse_boolean_rest(t: Seq<TokenView>, i: int, acc: ExprView) -> (Result<
    ExprView,
    ParseErrorView,
>, int)
    decreases t.len() - i, 11int,
{
    match or_op_at(t, i) {
        None => (Ok(acc), i),
        Some(op) => {
            let r = spec_parse_logical_and(t, i + 1);
            match r.0 {
                Err(e) => (Err(e), r.1),
                Ok(right) => if i < r.1 <= t.len() {
                    spec_parse_boolean_rest(
                        t,
                        r.1,
                        ExprView::CompareOp(Box::new(acc), op, Box::new(right)),
                    )
                } else {
                    (Ok(acc), i)  // never reached: a successful operand parse advances
                },
            }
        },
    }
}

/// The logical-or tier, the loosest of the expression grammar:
/// `logical_and ("||" logical_and)*`.
pub open spec fn spec_parse_boolean(t: Seq<TokenView>, i: int) -> (Result<
    ExprView,
    ParseErrorView,
>, int)
    decreases t.len() - i, 12int,
{
    let r = spec_parse_logical_and(t, i);
    match r.0 {
        Err(e) => (Err(e), r.1),
        Ok(first) => if i <= r.1 <= t.len() {
            spec_parse_boolean_rest(t, r.1, first)
        } else {
            (Ok(first), r.1)  // never reached: the cursor only moves forward
        },
    }
}

/// A whole expression: the loosest tier.
pub open spec fn spec_parse_expression(t: Seq<TokenView>, i: int) -> (Result<
    ExprView,
    ParseErrorView,
>, int)
    decreases t.len() - i, 13int,
{
    spec_parse_boolean(t, i)
}

/// One statement: `Identifier Assign expression`.  A statement that does not
/// begin with an identifier is an `InvalidIdentifier` error; an identifier
/// not followed by `=` is an `InvalidAssignment` error.
pub open spec fn spec_parse_assignment(t: Seq<TokenView>, i: int) -> (Result<
    StmtView,
    ParseErrorView,
>, int)
    decreases t.len() - i, 14int,
{
    match spec_cur(t, i) {
        TokenView::Identifier(name) => if spec_cur(t, i + 1) is Assign {
            let r = spec_parse_expression(t, i + 2);
            match r.0 {
                Err(e) => (Err(e), r.1),
                Ok(e) => (Ok(StmtView::Assignment(name, e)), r.1),
            }
        } else {
            (Err(ParseErrorView::InvalidAssignment), i + 1)
        },
        _ => (Err(ParseErrorView::InvalidIdentifier), i),
    }
}

/// Statements from the cursor up to the `EOF` sentinel or the end of the
/// sequence, appended to `acc` in source order.
pub open spec fn spec_parse_stmts(t: Seq<TokenView>, i: int, acc: Seq<StmtView>) -> (Result<
    Seq<StmtView>,
    ParseErrorView,
>, int)
    decreases t.len() - i, 15int,
{
    if i >= t.len() || spec_cur(t, i) is EOF {
        (Ok(acc), i)
    } else {
        let r = spec_parse_assignment(t, i);
        match r.0 {
            Err(e) => (Err(e), r.1),
            Ok(st) => if i < r.1 <= t.len() {
                spec_parse_stmts(t, r.1, acc.push(st))
            } else {
                (Ok(acc.push(st)), r.1)  // never reached: a successful statement advances
            },
        }
    }
}

/// A whole program: its statements in source order, or the first error.
pub open spec fn spec_parse_program(t: Seq<TokenView>) -> Result<Seq<StmtView>, ParseErrorView> {
    spec_parse_stmts(t, 0, seq![]).0
}

} // verus!
