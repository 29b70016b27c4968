//! A verified front end for a small expression-and-assignment language.
//!
//! The pipeline has two stages: [`tokenize`] turns source text into a flat
//! token sequence ending in an `EOF` sentinel, and [`parse_program`] consumes
//! that sequence by recursive descent, climbing one precedence tier per
//! grammar rule, into a [`Program`] or a structured [`ParseError`].
//!
//! Every executable stage carries a contract that pins its result to a
//! mathematical description: [`spec_tokenize`] for the lexer and
//! [`spec_parse_program`] for the parser.  The laws of the front end —
//! single-token assignments, left-associativity of every operator, source
//! order of statements, concatenation of programs, and the
//! render-and-tokenize round trip — are stated and proved in the `laws`,
//! `locality` and `render` modules.

pub mod ast;
pub mod grammar;
pub mod laws;
pub mod lexer;
pub mod locality;
pub mod parser;
pub mod render;
pub mod token;

pub use ast::BinaryOperator;
pub use ast::CompareOperator;
pub use ast::ExprView;
pub use ast::Expression;
pub use ast::ParseError;
pub use ast::ParseErrorView;
pub use ast::PrecedenceLevel;
pub use ast::Program;
pub use ast::Stmt;
pub use ast::StmtView;
pub use grammar::lemma_op_table;
pub use grammar::spec_parse_program;
pub use laws::lemma_arith_left_associative;
pub use laws::lemma_compare_left_associative;
pub use laws::lemma_single_token_assignment;
pub use laws::lemma_statements_in_order;
pub use lexer::spec_tokenize;
pub use locality::lemma_programs_concatenate;
pub use lexer::tokenize;
pub use parser::parse_boolean;
pub use parser::parse_comparison;
pub use parser::parse_program;
pub use render::lemma_tokenize_round_trip;
pub use render::render_tokens;
pub use render::spec_render;
pub use token::Token;
pub use token::TokenView;
pub use token::dup_token;
pub use token::toks_view;
