pub mod assembler;
pub mod code;
pub mod parser;
pub mod symbol_table;
