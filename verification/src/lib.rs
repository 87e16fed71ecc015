//! Verified core of the priority-notify client.

pub mod api;
pub mod commands;
pub mod models;
pub mod reconnect;
pub mod reminder;
pub mod sse;
pub mod text;
