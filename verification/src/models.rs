//! The two vocabularies that the translation stands between.

pub mod anthropic;
pub mod openai;
