//! A catalog of facial identity signatures: similarity ranking and
//! clustering over precomputed scores, an in-memory record table with
//! retention cleanup, and a fan-out hub for change notifications.

pub mod score;
pub mod comparator;
pub mod record;
pub mod store;
pub mod hub;
pub mod config;
pub mod security;
pub mod layout;
