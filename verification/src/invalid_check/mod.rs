pub mod common;
pub mod check;
pub mod parse;
