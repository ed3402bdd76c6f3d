//! Front end of a small expression-oriented language: a lexer that turns
//! source text into classified tokens, a recursive-descent parser that turns
//! the token stream into an expression tree, and a printer that renders the
//! tree in a canonical parenthesized form.

pub mod expression;
pub mod keywords;
pub mod parser;
pub mod scanner;
pub mod tokens;
