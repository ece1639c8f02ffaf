//! A verified core for a MASQUE (CONNECT-IP) tunnel client.

pub mod api;
pub mod buffer;
pub mod capsule;
pub mod cli;
pub mod codec;
pub mod config;
pub mod crypto;
pub mod datagram;
pub mod dns;
pub mod enroll;
pub mod handshake;
pub mod hooks;
pub mod http_proxy;
pub mod ip;
pub mod octets;
pub mod phy;
pub mod portfw;
pub mod session;
pub mod socks;
pub mod stack;
pub mod supervisor;
pub mod text;
pub mod tun;
