//! Calls of the providers: what is sent again, and what a reply comes to.

pub mod claude_adapter;
pub mod http;
pub mod responses_adapter;
