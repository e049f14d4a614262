//! The client side of the remote framebuffer (VNC) protocol, without I/O.
//!
//! The library decides and computes: it negotiates a session, decodes what the
//! server sends and keeps the state of a running client. Reading and writing
//! the connection is left to the caller, who hands over the bytes that have
//! arrived and carries out the actions that the library asks for.
pub mod client;
pub mod codec;
pub mod config;
pub mod error;
pub mod event;
pub mod input;
pub mod input_laws;
