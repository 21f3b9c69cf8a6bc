//! A verified core for an IP-over-QUIC tunnel: frame and envelope codecs,
//! routing state, and connection bookkeeping, with the cryptographic and
//! network primitives of outside crates behind trusted wrappers.

pub mod codec;
pub mod conn;
pub mod crypto;
pub mod hash;
pub mod packet;
pub mod protocol;
pub mod route;
pub mod socks5;
