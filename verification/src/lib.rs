//! A guard between OpenAI-compatible clients and model servers: it recovers,
//! repairs and checks the tool calls that models make.
pub mod admin;
pub mod application;
pub mod cli;
pub mod connector;
pub mod domain;
pub mod json;
pub mod members;
pub mod names;
pub mod text;
pub mod written;
