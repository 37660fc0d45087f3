//! What holds of every stream.

pub mod content;
pub mod order;
pub mod steps;
pub mod story;
pub mod tool_calls;
pub mod views;
