//! Conversations with language models that are kept: how they are stored,
//! listed, searched, repaired and carried on.

pub mod chat;
pub mod llm;
pub mod order;
pub mod repository;
pub mod screen;
pub mod session;
pub mod text;
pub mod text_laws;
pub mod time;
