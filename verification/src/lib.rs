//! Peek: the match-companion logic for VALORANT, verified.
pub mod json;
pub mod text;
pub mod presence;
pub mod client_version;
pub mod assoc;
pub mod encounter;
pub mod static_cache;
pub mod model;
pub mod fetcher;
pub mod match_state;
pub mod roster;
pub mod history;
pub mod orchestrator;
pub mod discord;
pub mod retry;
pub mod local;
pub mod auth;
