//! A client: how it connects, and what it does while it runs.
pub mod connection;
pub mod connection_laws;
pub mod connector;
pub mod connector_laws;
pub mod init;
pub mod message_laws;
pub mod update;
pub mod update_laws;
