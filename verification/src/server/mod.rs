//! The decisions of the server: its settings, which configuration a request is about, and what
//! is done when the names of a configuration are not at hand.
pub mod answers;
pub mod config;
pub mod params;
pub mod pid_lock;
pub mod rebuild;
pub mod slots;
pub mod state;
