//! A scanner for a small C-like scripting language.
//!
//! Source text goes in as characters; out comes the ordered sequence of
//! classified tokens, closed by an end-of-input marker, together with the final
//! line count and the lexical diagnostics met on the way. A malformed lexeme
//! never stops the scan: it is recorded and scanning goes on.
//!
//! The mathematical description of the scan lives in [`grammar`]; the
//! executable scanner in [`tokenizer`] is proved to compute exactly that.

pub mod diagnostic;
pub mod expr;
pub mod grammar;
pub mod laws;
pub mod lemmas;
pub mod parser;
pub mod stream;
pub mod text;
pub mod token;
pub mod tokenizer;
