//! Reader, macro expander and code generator for the Corn language.
pub mod ast;
pub mod base_macro;
pub mod context;
pub mod gen2lyzh4ir;
pub mod laws;
pub mod matching;
pub mod parser;
pub mod preprocessor;
pub mod printer;
pub mod readback;
pub mod records;
pub mod table;
pub mod text;
pub mod utils;
