//! What the admin server changes and shows.
pub mod manage;
pub mod state;
