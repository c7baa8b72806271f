//! Variant-group expansion for utility-first class names.
//!
//! A variant group such as `text-(red sm)` is shorthand for the flat class
//! list `text-red text-sm`. This crate rewrites the shorthand into the flat
//! form and states, as verified contracts, exactly what each step produces.

pub mod driver;
pub mod expand;
pub mod group;
pub mod words;

pub use crate::driver::{class_tokens, shallow_transform, transform};
