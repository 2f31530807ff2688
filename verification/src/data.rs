//! Inbound form payloads and the in-memory override stores.

pub mod forms;
pub mod state;
