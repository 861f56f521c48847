//! Conversations: what they hold, how they are stored and repaired.

pub mod entity;
pub mod listing;
pub mod listing_laws;
pub mod message_repository;
pub mod model;
pub mod redaction;
pub mod redaction_laws;
pub mod repair_laws;
pub mod repair_service;
pub mod replays;
pub mod saving_laws;
pub mod session_repository;
pub mod sessions_service;
pub mod similar;
pub mod storage_laws;
pub mod tables;
