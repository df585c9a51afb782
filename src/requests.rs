//! Talking to the remote API.
pub mod api_manager;
