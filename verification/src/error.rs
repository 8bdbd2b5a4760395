//! Error taxonomy of the proxy core.
//!
//! `ProtocolError` covers malformed or unexpected bytes from either the
//! inbound client or the outbound proxy; it is always fatal to the single
//! connection it arose on. `ConfigError` covers an empty proxy list at
//! selection time. `LoadError` covers a malformed line at list-load time,
//! which fails that whole load.

use vstd::prelude::*;

verus! {

/// Malformed or unexpected bytes on one connection's handshake.
#[derive(Clone, Copy, Debug, PartialEq, Eq, Structural)]
pub enum ProtocolError {
    /// A version byte other than 5 was seen.
    UnsupportedVersion,
    /// The client offered an empty list of authentication methods.
    NoAuthMethods,
    /// A command other than CONNECT was requested.
    UnsupportedCommand,
    /// The reserved request byte was not zero.
    ReservedFieldNonZero,
    /// An address-type tag outside {1, 3, 4}; carries the offending tag.
    UnsupportedAddressType(u8),
    /// The upstream proxy did not accept no-authentication.
    AuthRejected,
}

/// A configuration problem observed at selection time.
#[derive(Clone, Copy, Debug, PartialEq, Eq, Structural)]
pub enum ConfigError {
    /// Selection was attempted against an empty proxy list.
    NoProxiesConfigured,
}

/// A failed proxy-list load; the previously installed list stays in effect.
#[derive(Clone, Copy, Debug, PartialEq, Eq, Structural)]
pub enum LoadError {
    /// The line at this index (0-based) is neither blank, a comment,
    /// nor a well-formed `ip:port` entry.
    InvalidLine(usize),
}

} // verus!
