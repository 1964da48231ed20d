//! A lexical pipeline for G-code program text.
//!
//! Raw text is classified into typed [`Token`]s by the [`Lexer`], and the
//! token stream is stitched into semantic [`Atom`]s (words, comments,
//! newlines, and flagged fragments) by [`WordsOrComments`].

pub mod laws;
pub mod lexer;
pub mod span;
pub mod words;

pub use lexer::Lexer;
pub use lexer::Pred;
pub use lexer::Token;
pub use lexer::TokenType;
pub use span::Span;
pub use words::Atom;
pub use words::Comment;
pub use words::Word;
pub use words::WordsOrComments;
