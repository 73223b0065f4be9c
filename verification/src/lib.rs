//! Core of a transparent obfuscating TCP tunnel.
//!
//! The library holds the parts of the tunnel that are pure computation:
//! the keyed byte transform, the frame codec, the target address codec,
//! the TLS ClientHello SNI sniffer, the routing engine, and the decision
//! kernels of the connection handlers. Network and file I/O live outside.

pub mod config;
pub mod fallback;
pub mod iptext;
pub mod obfuscation;
pub mod protocol;
pub mod redirect;
pub mod relay;
pub mod routing;
pub mod sni;
pub mod util;
