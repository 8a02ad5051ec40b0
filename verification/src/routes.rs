//! What the routes decide and answer.
pub mod admin;
pub mod catalog;
pub mod page_laws;
pub mod pages;
pub mod route_laws;
pub mod verify;
pub mod webhook_laws;
pub mod webhooks;
