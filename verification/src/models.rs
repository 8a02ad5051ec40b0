//! What rules and facts are.
pub mod condition;
pub mod facts;
pub mod rule;
pub mod rule_json;
pub mod rule_laws;
