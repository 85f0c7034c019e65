//! Verified core of the ShadeVPN native transport.

pub mod bytes;
pub mod crypto;
pub mod handshake;
pub mod pump;
pub mod reality;
pub mod schedule;
pub mod session;
mod text;
pub mod tls;
pub mod tls13;
pub mod transport;
pub mod vision;
pub mod vless;
pub mod x509;
