//! The interactive chat.

pub mod anchor_ui;
pub mod chat_laws;
pub mod commands;
pub mod context;
pub mod history;
pub mod input_laws;
pub mod interactive;
pub mod naming;
pub mod notice;
pub mod provider;
pub mod turn;
