//! A reader and printer for a minimal S-expression language:
//! parenthesized lists of symbols, quoted strings, and signed decimal
//! numbers.  `parse` turns characters into one tree value, `to_text`
//! renders a tree back to text, and a proved round-trip law ties the two
//! together.

pub mod laws;
pub mod lexer;
pub mod parser;
pub mod render;
pub mod value;

pub use lexer::is_ident;
pub use lexer::Token;
pub use parser::parse;
pub use parser::parse_str;
pub use render::to_text;
pub use value::ParseError;

pub use value::NumLit;
pub use value::SpecValue;
pub use value::Value;
