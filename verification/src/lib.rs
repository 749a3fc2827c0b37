//! A forwarding DNS resolver core: the wire codec for DNS messages and the
//! rules by which a query is answered locally or handed to an upstream
//! resolver.

pub mod error;
pub mod wire;
pub mod name;
pub mod name_laws;
pub mod types;
pub mod header;
pub mod question;
pub mod record;
pub mod packet;
pub mod laws;
pub mod dns_server;
pub mod settings;
