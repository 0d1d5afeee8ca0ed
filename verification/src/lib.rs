pub mod parse_spec;
pub mod parser;
pub mod scan_laws;
pub mod scan_spec;
pub mod scanner;
pub mod token;
pub mod unicode;

pub use crate::parse_spec::ParseError;
pub use crate::parser::Expression;
pub use crate::parser::Literal;
pub use crate::parser::Parser;
pub use crate::scanner::Scanner;
pub use crate::token::LexError;
pub use crate::token::Token;
pub use crate::token::TokenType;
