//! Request planning for a Jupyter Server client and for running shell
//! commands in a remote Jupyter terminal.
//!
//! The library decides what to send and how to read what comes back; the
//! program around it performs the network traffic.

pub mod text;
pub mod server_url;
pub mod json;
pub mod client;
pub mod terminal;
pub mod notebook;
