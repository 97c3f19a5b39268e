//! The three operations of the lifecycle: generate, list and remove.
pub mod generate_host;
pub mod list_hosts;
pub mod remove_host;
