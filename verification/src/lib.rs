//! Discord roles for Stripe subscribers: which member a Stripe record belongs
//! to, what is known of the member, whom a rule admits, and what follows for the
//! member's roles.
//!
//! Nothing here reads or writes anything outside: the database, the network and
//! the routes are the caller's. What another crate computes is called through
//! the few functions that are marked as trusted, each with its contract.
pub mod bytes;
pub mod clock;
pub mod decode;
pub mod digest;
pub mod error;
pub mod json;
pub mod models;
pub mod numeral;
pub mod order;
pub mod routes;
pub mod schema;
pub mod services;
pub mod tasks;
pub mod text;
pub mod text_map;
pub mod url;
