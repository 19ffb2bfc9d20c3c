pub mod bindings;
pub mod expr;
pub mod fmt;
pub mod laws;
pub mod num;
pub mod parser;
