//! Post-quantum encrypted transport: packets, keys, error correction and handshakes, and the
//! rules of the command line tools around them.

pub mod bytes;
pub mod cli;
pub mod clock;
pub mod crypto;
pub mod error;
pub mod fec;
pub mod handshake;
pub mod packet;
pub mod text;

pub use crypto::decoder::PacketDecoder;
pub use crypto::encoder::PacketEncoder;
pub use crypto::keys::PacketKeys;
pub use crypto::CipherSuite;
pub use error::SeamError;
pub use packet::PktType;
