pub mod fault;
pub mod identifier;
pub mod tokenizer;
pub mod types;
pub mod ast;
pub mod type_parse;
pub mod type_text;
pub mod leafmod;
