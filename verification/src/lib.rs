//! A rule-driven lexical scanner.
//!
//! A [`Lexer`] is an ordered, append-only collection of pattern/action rules.
//! [`Lexer::tokenize`] turns it, together with an input string, into a
//! [`LexerIter`]: a cursor that lazily produces tokens by matching the rules,
//! in registration order, against the start of the unconsumed input.

pub mod laws;
pub mod lexer;
pub mod pattern;

pub use lexer::Action;
pub use lexer::AddRuleResult;
pub use lexer::Lexer;
pub use lexer::LexerIter;
pub use lexer::NoAction;
pub use lexer::PatternError;
pub use lexer::Rule;
pub use lexer::RuleAction;
pub use lexer::TokenizeError;
pub use lexer::TokenizeResult;
pub use pattern::add_start_flag;
