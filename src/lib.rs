//! A mesh-networking node core: deterministic post-quantum identities recovered
//! from a phrase, the binary packet wire format, an encrypted store-and-forward
//! queue with retry and expiry, and the transport dispatch coordinator.
pub mod crypto;
pub mod identity;
pub mod node;
pub mod packet;
pub mod storage;
pub mod table;
pub mod text;
pub mod transport;

pub use packet::{
    MetaMeshPacket, PacketError, PacketFlags, PacketHeader, PacketType, MAGIC_HEADER, TLV,
    TLV_DATA, TLV_PUBKEY, TLV_ROUTE, TLV_SIG,
};
