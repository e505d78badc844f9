pub mod interpreter;
pub mod ir;
pub mod parser;
pub mod text;
