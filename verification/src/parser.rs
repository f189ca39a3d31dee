pub mod parser;
pub mod structs;
