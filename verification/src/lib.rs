//! Decision logic of a ticket-resale watcher.
pub mod bot;
pub mod clock;
pub mod config;
pub mod fetch;
pub mod laws;
pub mod notify;
pub mod page;
pub mod parse;
pub mod state;
pub mod text;
pub mod watcher;
