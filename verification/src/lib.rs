//! A guestbook library: visitors submit short messages, a moderation filter
//! decides whether each entry is published at once or held for review, and an
//! operator surface (restricted to trusted network origins) approves or
//! rejects held entries.

pub mod filter;
pub mod models;
pub mod origin;
pub mod service;
pub mod store;
