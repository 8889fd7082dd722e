pub mod expr;
pub mod list;
pub mod parse;
pub mod relex;
