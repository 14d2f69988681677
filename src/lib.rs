//! A membership store that records which users subscribed to which role
//! inside which guild, with verified lookups and conditional removals, and
//! the decisions a chat bot built on it takes.
pub mod api;
pub mod deals;
pub mod events;
pub mod lemmas;
