pub mod chat;
pub mod common;
pub mod error;
pub mod file;
pub mod graph;
pub mod knowledge;
pub mod knowledge_base;
pub mod search;
pub mod system;
pub mod wiki;
