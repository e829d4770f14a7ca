//! The syntax tree, and its printer.

pub mod expr;
pub mod pretty_printer;
pub mod stmt;
