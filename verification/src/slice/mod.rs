pub mod pattern;
pub mod types;
pub mod names;
pub mod struct_decl;
pub mod enumeration;
pub mod exception;
pub mod function;
pub mod interface;
pub mod module;
pub mod parser;
pub mod writer;
