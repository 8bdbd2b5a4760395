//! A verified SOCKS5 forwarding-proxy core.
//!
//! The library holds the protocol logic of a small forward proxy: the
//! address codec shared by both directions of the handshake, the inbound
//! handshake state machine, the outbound handshake builder, the proxy-list
//! text format, uniform-random endpoint selection, and the hot-swappable
//! current-list cell. All socket work lives outside the library; callers
//! feed bytes in and carry bytes out.

pub mod addr;
pub mod error;
pub mod handshake;
pub mod list;
pub mod reload;
pub mod select;
