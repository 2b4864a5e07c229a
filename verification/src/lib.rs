//! The public interface of a Rust module as text: one line per public item, each line
//! mapped back to the item it shows.

pub mod api;
pub mod laws;
pub mod model;
pub mod order;
pub mod render;
pub mod text;
