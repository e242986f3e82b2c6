pub mod ast;
pub mod driver;
pub mod generator;
pub mod grammar;
pub mod locals;
pub mod parser;
pub mod render;
pub mod tokenizer;
