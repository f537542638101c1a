//! The guardrail loop: what is asked of the backend, what is made of its
//! answer, and what the client is told.
pub mod chat;
pub mod members;
pub mod models;
pub mod plan;
pub mod responses;
pub mod ruling;
pub mod wire;
