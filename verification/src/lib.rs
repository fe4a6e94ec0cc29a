//! Helpers for preparing puzzle input: reshaping delimited text into one
//! item per line, parsing items into numbers, and the arithmetic of a
//! rectangular grid that is stored row by row.

pub mod coords;
pub mod listify;
pub mod parse;
pub mod split;
pub mod text;
