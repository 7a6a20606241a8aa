//! An in-memory store of uniquely-keyed simulation records, together with
//! the request-handling layer of a small HTTP service over it: listing,
//! inserting, upserting and removing records, and the exact status codes
//! and response messages each operation produces.

pub mod models;
pub mod store;
pub mod digits;
pub mod messages;
pub mod handlers;
