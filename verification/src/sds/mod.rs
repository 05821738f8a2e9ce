//! Scalable data sync: reliable, causally ordered delivery on a channel.

pub mod bloom;
pub mod channel;
pub mod config;
pub mod laws;
pub mod message;
pub mod reliable;
pub mod state;
