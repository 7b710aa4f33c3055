//! Translation of parsed contract test bodies into client-side call sequences.

pub mod abi;
pub mod assembler;
pub mod cases;
pub mod classifier;
pub mod declarations;
pub mod document;
pub mod error;
pub mod expr;
pub mod serialized;
pub mod splitter;
pub mod text;
pub mod translator;
