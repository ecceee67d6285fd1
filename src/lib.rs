use vstd::prelude::*;

pub mod codec;
pub mod config;
pub mod error;
pub mod handler;
pub mod handshake;
pub mod message;
pub mod security;
pub mod state;
pub mod text;
pub mod tokens;

pub use config::TransportConfig;
pub use error::{ProtocolError, TransportError};
pub use handler::ProtocolHandler;
pub use handshake::{HandshakeKind, HandshakeMessage, HandshakeProgress};
pub use message::{AppMessage, CommandResponse};
pub use security::{SecureFrame, SecurityManager};
pub use state::ConnectionState;

verus! {

} // verus!
