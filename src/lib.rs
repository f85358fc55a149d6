//! A binary search tree that keeps equal values on the right, finds its
//! largest value by following right children, and draws itself as a text
//! diagram.
pub mod laws;
pub mod text;
pub mod tree;
pub mod value;
