pub mod chars;
pub mod numeric;
pub mod token;
pub mod tokenizer;

pub use token::{Token, TokenKind};
pub use tokenizer::Tokenizer;
