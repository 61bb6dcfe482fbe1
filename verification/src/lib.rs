//! Core of a blog content backend: the write-path consistency and
//! throttling subsystem.
//!
//! The crate models the relational store as an in-memory [`store::BlogStore`]
//! and proves the write-path logic against it: URL-slug derivation and
//! uniqueness resolution, summary extraction, tag reconciliation inside an
//! atomic post write, and a sliding-window rate limiter keyed by client
//! identity. The surrounding process (HTTP routing, the actual database
//! connection, clocks) supplies plain values and performs the effects.

pub mod comments;
pub mod error;
pub mod links;
pub mod markdown;
pub mod postlists;
pub mod posts;
pub mod queries;
pub mod ratelimit;
pub mod records;
pub mod slug;
pub mod store;
pub mod tags;
pub mod text;

pub use error::AppError;
