//! The translation itself.

pub mod finish;
pub mod json;
pub mod laws;
pub mod outcome;
pub mod stream;
