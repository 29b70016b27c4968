//! Lexical tokens: the flat units that the lexer produces and the parser
//! consumes.  `Token` is the executable type; `TokenView` is its mathematical
//! model, with `int` for numbers and `Seq<char>` for text.
use vstd::prelude::*;

verus! {

/// A lexical token.  A token sequence produced by [`crate::tokenize`] always
/// ends with exactly one `EOF` sentinel, which lets the parser peek without
/// bounds checks.
#[derive(Debug, PartialEq)]
pub enum Token {
    /// A signed integer literal.
    Number(i64),
    /// A name: a letter or `_` followed by letters, digits and `_`,
    /// other than the boolean keywords.
    Identifier(String),
    /// One of the operator symbols
    /// `+ - * / // % ** == != < <= > >= && ||`.
    Operator(String),
    /// The text between two double quotes.
    StringLiteral(String),
    /// The keyword `True` or `False`.
    Boolean(bool),
    OpenParen,
    CloseParen,
    /// A single `=`.
    Assign,
    /// End of input.
    EOF,
}

/// The mathematical model of a [`Token`].
pub enum TokenView {
    Number(int),
    Identifier(Seq<char>),
    Operator(Seq<char>),
    StringLiteral(Seq<char>),
    Boolean(bool),
    OpenParen,
    CloseParen,
    Assign,
    EOF,
}

impl View for Token {
    type V = TokenView;

    open spec fn view(&self) -> TokenView {
        match self {
            Token::Number(n) => TokenView::Number(*n as int),
            Token::Identifier(s) => TokenView::Identifier(s@),
            Token::Operator(s) => TokenView::Operator(s@),
            Token::StringLiteral(s) => TokenView::StringLiteral(s@),
            Token::Boolean(b) => TokenView::Boolean(*b),
            Token::OpenParen => TokenView::OpenParen,
            Token::CloseParen => TokenView::CloseParen,
            Token::Assign => TokenView::Assign,
            Token::EOF => TokenView::EOF,
        }
    }
}

/// The model of a token sequence: each token replaced by its view.
pub open spec fn toks_view(ts: Seq<Token>) -> Seq<TokenView> {
    ts.map_values(|t: Token| t@)
}

/// Copies a token.  Verified by hand so that the copy is known to have the
/// same view as the original.
pub fn dup_token(t: &Token) -> (r: Token)
    ensures
        r@ == t@,
{
    match t {
        Token::Number(n) => Token::Number(*n),
        Token::Identifier(s) => Token::Identifier(s.clone()),
        Token::Operator(s) => Token::Operator(s.clone()),
        Token::StringLiteral(s) => Token::StringLiteral(s.clone()),
        Token::Boolean(b) => Token::Boolean(*b),
        Token::OpenParen => Token::OpenParen,
        Token::CloseParen => Token::CloseParen,
        Token::Assign => Token::Assign,
        Token::EOF => Token::EOF,
    }
}

} // verus!
