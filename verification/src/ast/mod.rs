pub mod parser;
pub mod value;

pub use value::Statement;
