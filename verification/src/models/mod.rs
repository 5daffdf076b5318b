//! The supported models.
pub mod args;
pub mod assistant_laws;
pub mod attention;
pub mod attention_laws;
pub mod block;
pub mod block_laws;
pub mod draft_laws;
pub mod embedding_laws;
pub mod gemma4;
pub mod gemma4_assistant;
pub mod generate;
pub mod laws;
pub mod layer;
pub mod modules;
pub mod pass_laws;
pub mod plan_laws;
pub mod rope;
pub mod text_model;
