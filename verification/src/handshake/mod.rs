//! Handshake messages.

pub mod binder;
pub mod finished;
pub mod extensions;
pub mod server_hello;
