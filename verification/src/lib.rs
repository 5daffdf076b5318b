//! Gemma 4 text models and their draft assistants: configuration, layer layout,
//! forward passes, strict weight loading and generation.
pub mod error;
pub mod graph;
pub mod meaning;
pub mod models;
pub mod text;
pub mod weight_laws;
pub mod weights;
