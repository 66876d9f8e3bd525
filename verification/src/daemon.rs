//! The decisions of the single per-user daemon.

pub mod attachment;
pub mod autostart;
pub mod connection;
pub mod creation;
pub mod errors;
pub mod git;
pub mod lease;
pub mod outbound;
pub mod path;
pub mod presence;
pub mod process;
pub mod recipe;
pub mod replies;
pub mod requests;
pub mod socket;
pub mod state;
pub mod view;
