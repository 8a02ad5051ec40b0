//! The rules and computations behind the routes and tasks.
pub mod account_laws;
pub mod condition_eval;
pub mod crypto;
pub mod evaluation_laws;
pub mod ingest;
pub mod link_laws;
pub mod member_facts;
pub mod member_laws;
pub mod parameters;
pub mod rule_sql;
pub mod session;
pub mod signing_laws;
pub mod sql_laws;
pub mod sql_text;
pub mod stripe;
pub mod stripe_laws;
pub mod stripe_wire;
pub mod sync;
pub mod sync_laws;
