//! Typed message lanes over one QUIC connection: the wire format, the setup
//! handshake, the lane and kernel state machines, and the planning step of the
//! `seek!` macro.
//!
//! Nothing here performs I/O. Each state machine says what to wait for and
//! what to do next; the runtime around it does the waiting and the doing.

pub mod codec;
pub mod connection;
pub mod error;
pub mod handshake;
pub mod kernel;
pub mod lane;
pub mod manifest;
pub mod plan;
pub mod text;
pub mod wire;

pub use connection::{CancelInfo, ConnectionGuard};
pub use error::TransportError;
pub use plan::seek;
