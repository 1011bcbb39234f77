//! A small, self-contained HOCON reader: the parser turns a document into a
//! [`Value`] tree whose objects keep their entries in order.

pub mod error;
pub mod grammar;
pub mod number;
pub mod parser;
pub mod value;

pub use error::Error;
pub use parser::parse;
pub use value::Value;
