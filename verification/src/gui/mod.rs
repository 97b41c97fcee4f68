//! What the database browser shows, and what it lets through.

pub mod engine;
pub mod assets;
pub mod qr;
pub mod api;
pub mod desktop;
pub mod session;
pub mod actions;
pub mod phrase;
