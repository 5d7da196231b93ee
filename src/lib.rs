//! A recursive-descent parser for a small JSON dialect whose documents are
//! objects, proved against a grammar stated as spec functions.
pub mod chars;
pub mod value;
pub mod grammar;
pub mod parser;
pub mod laws;
