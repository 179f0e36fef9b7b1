//! Horizontal (`x`) and vertical (`y`) alignment of lines of text.
pub mod x;
pub mod y;
