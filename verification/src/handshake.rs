//! The SOCKS5 handshake engine.
//!
//! The inbound side is a strict state machine over the client's byte
//! stream: the caller asks [`InboundState::needed`] how many bytes the
//! machine wants, reads exactly that many, and hands them to
//! [`InboundState::step`], which may also yield reply bytes to write
//! back. The machine ends in `Done` with the parsed target address and
//! port, or in `Failed` with the protocol error.
//!
//! The outbound side is plain construction and checking of fixed-format
//! messages: the greeting this proxy sends when acting as a SOCKS5
//! client, the check of the proxy's method-selection reply, and the
//! CONNECT request that re-encodes the parsed target.

use vstd::prelude::*;
use crate::addr::{AddrForm, SocksAddr, spec_decode, ATYP_DOMAIN, ATYP_IPV4, ATYP_IPV6};
use crate::error::ProtocolError;

verus! {

/// The inbound handshake, one state per fixed-size read.
pub enum InboundState {
    /// Awaiting the 2-byte greeting `[version, nmethods]`.
    Greeting,
    /// Awaiting the client's `nmethods` offered method identifiers,
    /// which are discarded: only no-authentication is ever selected.
    Methods { nmethods: u8 },
    /// Awaiting the 4-byte request `[version, command, reserved, addrtype]`.
    Request,
    /// Awaiting the 1-byte length of a domain-name address.
    DomainLen,
    /// Awaiting `len` address payload bytes for the tag `atyp`.
    Addr { atyp: u8, len: u8 },
    /// Awaiting the 2-byte big-endian destination port.
    Port { addr: SocksAddr },
    /// The request is complete.
    Done { addr: SocksAddr, port: u16 },
    /// The handshake failed; the connection is to be dropped.
    Failed { err: ProtocolError },
}

/// The mathematical form of an [`InboundState`].
pub enum InboundMode {
    Greeting,
    Methods { nmethods: u8 },
    Request,
    DomainLen,
    Addr { atyp: u8, len: u8 },
    Port { addr: AddrForm },
    Done { addr: AddrForm, port: u16 },
    Failed { err: ProtocolError },
}

impl View for InboundState {
    type V = InboundMode;

    open spec fn view(&self) -> InboundMode {
        match self {
            InboundState::Greeting => InboundMode::Greeting,
            InboundState::Methods { nmethods } => InboundMode::Methods { nmethods: *nmethods },
            InboundState::Request => InboundMode::Request,
            InboundState::DomainLen => InboundMode::DomainLen,
            InboundState::Addr { atyp, len } => InboundMode::Addr { atyp: *atyp, len: *len },
            InboundState::Port { addr } => InboundMode::Port { addr: addr@ },
            InboundState::Done { addr, port } => InboundMode::Done { addr: addr@, port: *port },
            InboundState::Failed { err } => InboundMode::Failed { err: *err },
        }
    }
}

impl InboundMode {
    /// States that accept no further input.
    pub open spec fn is_finished(self) -> bool {
        self is Done || self is Failed
    }

    /// Internal consistency: an address read awaits exactly the number
    /// of bytes its tag dictates, and a parsed address is well-formed.
    pub open spec fn inv(self) -> bool {
        match self {
            InboundMode::Addr { atyp, len } => (atyp == ATYP_IPV4 && len == 4) || atyp
                == ATYP_DOMAIN || (atyp == ATYP_IPV6 && len == 16),
            InboundMode::Port { addr } => addr.wf(),
            InboundMode::Done { addr, port } => addr.wf(),
            _ => true,
        }
    }
}

/// How many bytes the machine wants next in the given state.
pub open spec fn needed_of(m: InboundMode) -> nat {
    match m {
        InboundMode::Greeting => 2,
        InboundMode::Methods { nmethods } => nmethods as nat,
        InboundMode::Request => 4,
        InboundMode::DomainLen => 1,
        InboundMode::Addr { atyp, len } => len as nat,
        InboundMode::Port { addr } => 2,
        InboundMode::Done { .. } => 0,
        InboundMode::Failed { .. } => 0,
    }
}

/// The successor state once exactly `needed_of(m)` input bytes arrive.
pub open spec fn step_of(m: InboundMode, input: Seq<u8>) -> InboundMode {
    match m {
        InboundMode::Greeting => if input[0] != 5 {
            InboundMode::Failed { err: ProtocolError::UnsupportedVersion }
        } else if input[1] == 0 {
            InboundMode::Failed { err: ProtocolError::NoAuthMethods }
        } else {
            InboundMode::Methods { nmethods: input[1] }
        },
        InboundMode::Methods { .. } => InboundMode::Request,
        InboundMode::Request => if input[0] != 5 {
            InboundMode::Failed { err: ProtocolError::UnsupportedVersion }
        } else if input[1] != 1 {
            InboundMode::Failed { err: ProtocolError::UnsupportedCommand }
        } else if input[2] != 0 {
            InboundMode::Failed { err: ProtocolError::ReservedFieldNonZero }
        } else if input[3] == ATYP_IPV4 {
            InboundMode::Addr { atyp: ATYP_IPV4, len: 4 }
        } else if input[3] == ATYP_DOMAIN {
            InboundMode::DomainLen
        } else if input[3] == ATYP_IPV6 {
            InboundMode::Addr { atyp: ATYP_IPV6, len: 16 }
        } else {
            InboundMode::Failed { err: ProtocolError::UnsupportedAddressType(input[3]) }
        },
        InboundMode::DomainLen => InboundMode::Addr { atyp: ATYP_DOMAIN, len: input[0] },
        InboundMode::Addr { atyp, len } => match spec_decode(atyp, input) {
            Ok(addr) => InboundMode::Port { addr },
            Err(err) => InboundMode::Failed { err },
        },
        InboundMode::Port { addr } => InboundMode::Done {
            addr,
            port: (input[0] * 256 + input[1]) as u16,
        },
        InboundMode::Done { .. } => m,
        InboundMode::Failed { .. } => m,
    }
}

/// The reply bytes the server writes when leaving the given state:
/// after the method identifiers arrive it answers `[5, 0]` (version 5,
/// no authentication); no other transition writes anything.
pub open spec fn reply_of(m: InboundMode) -> Option<Seq<u8>> {
    match m {
        InboundMode::Methods { .. } => Some(seq![5u8, 0u8]),
        _ => None,
    }
}

impl InboundState {
    /// The machine's starting state.
    pub fn start() -> (r: InboundState)
        ensures
            r@ == InboundMode::Greeting,
    {
        InboundState::Greeting
    }

    /// How many bytes to read before the next [`Self::step`] call.
    pub fn needed(&self) -> (n: usize)
        ensures
            n == needed_of(self@),
    {
        match self {
            InboundState::Greeting => 2,
            InboundState::Methods { nmethods } => *nmethods as usize,
            InboundState::Request => 4,
            InboundState::DomainLen => 1,
            InboundState::Addr { atyp: _, len } => *len as usize,
            InboundState::Port { addr: _ } => 2,
            InboundState::Done { .. } => 0,
            InboundState::Failed { .. } => 0,
        }
    }

    /// Whether the machine accepts no further input.
    pub fn is_finished(&self) -> (b: bool)
        ensures
            b == self@.is_finished(),
    {
        match self {
            InboundState::Done { .. } => true,
            InboundState::Failed { .. } => true,
            _ => false,
        }
    }

    /// Feeds the machine exactly the bytes it asked for, returning the
    /// successor state and the reply bytes to write, if any.
    pub fn step(self, input: Vec<u8>) -> (r: (InboundState, Option<Vec<u8>>))
        requires
            self@.inv(),
            !self@.is_finished(),
            input@.len() == needed_of(self@),
        ensures
            r.0@ == step_of(self@, input@),
            r.0@.inv(),
            match r.1 {
                Some(v) => reply_of(self@) == Some(v@),
                None => reply_of(self@) is None,
            },
    {
        match self {
            InboundState::Greeting => {
                if input[0] != 5 {
                    (InboundState::Failed { err: ProtocolError::UnsupportedVersion }, None)
                } else if input[1] == 0 {
                    (InboundState::Failed { err: ProtocolError::NoAuthMethods }, None)
                } else {
                    (InboundState::Methods { nmethods: input[1] }, None)
                }
            }
            InboundState::Methods { .. } => {
                let mut reply: Vec<u8> = Vec::new();
                reply.push(5);
                reply.push(0);
                proof {
                    assert(reply@ =~= seq![5u8, 0u8]);
                }
                (InboundState::Request, Some(reply))
            }
            InboundState::Request => {
                if input[0] != 5 {
                    (InboundState::Failed { err: ProtocolError::UnsupportedVersion }, None)
                } else if input[1] != 1 {
                    (InboundState::Failed { err: ProtocolError::UnsupportedCommand }, None)
                } else if input[2] != 0 {
                    (InboundState::Failed { err: ProtocolError::ReservedFieldNonZero }, None)
                } else if input[3] == ATYP_IPV4 {
                    (InboundState::Addr { atyp: ATYP_IPV4, len: 4 }, None)
                } else if input[3] == ATYP_DOMAIN {
                    (InboundState::DomainLen, None)
                } else if input[3] == ATYP_IPV6 {
                    (InboundState::Addr { atyp: ATYP_IPV6, len: 16 }, None)
                } else {
                    (
                        InboundState::Failed {
                            err: ProtocolError::UnsupportedAddressType(input[3]),
                        },
                        None,
                    )
                }
            }
            InboundState::DomainLen => {
                (InboundState::Addr { atyp: ATYP_DOMAIN, len: input[0] }, None)
            }
            InboundState::Addr { atyp, len: _ } => match SocksAddr::decode(atyp, input) {
                Ok(addr) => (InboundState::Port { addr }, None),
                Err(err) => (InboundState::Failed { err }, None),
            },
            InboundState::Port { addr } => {
                let port = port_from_be(input[0], input[1]);
                (InboundState::Done { addr, port }, None)
            }
            InboundState::Done { .. } => (self, None),
            InboundState::Failed { .. } => (self, None),
        }
    }
}

/// A greeting whose version byte is not 5 fails with `UnsupportedVersion`,
/// and a version-5 greeting offering zero methods fails with
/// `NoAuthMethods` — both straight from the greeting state, before any
/// request-stage byte is consumed.
pub proof fn lemma_greeting_rejected(input: Seq<u8>)
    requires
        input.len() == 2,
    ensures
        input[0] != 5 ==> step_of(InboundMode::Greeting, input) == (InboundMode::Failed {
            err: ProtocolError::UnsupportedVersion,
        }),
        input[0] == 5 && input[1] == 0 ==> step_of(InboundMode::Greeting, input)
            == (InboundMode::Failed { err: ProtocolError::NoAuthMethods }),
        input[0] == 5 && input[1] != 0 ==> step_of(InboundMode::Greeting, input)
            == (InboundMode::Methods { nmethods: input[1] }),
{
}

/// A request whose address-type byte lies outside {1, 3, 4} fails with
/// `UnsupportedAddressType` carrying that byte, provided the earlier
/// header bytes were acceptable.
pub proof fn lemma_request_rejects_unknown_atyp(input: Seq<u8>)
    requires
        input.len() == 4,
        input[0] == 5,
        input[1] == 1,
        input[2] == 0,
        input[3] != ATYP_IPV4,
        input[3] != ATYP_DOMAIN,
        input[3] != ATYP_IPV6,
    ensures
        step_of(InboundMode::Request, input) == (InboundMode::Failed {
            err: ProtocolError::UnsupportedAddressType(input[3]),
        }),
{
}

/// A complete well-formed IPv4 or IPv6 exchange, stepped in order:
/// greeting, method identifiers, request header, address payload,
/// port. Each state asks for exactly the next wire field; the one
/// reply written is the `[5, 0]` method selection, sent after the
/// method identifiers and before any request byte; and the machine
/// ends `Done` with exactly the address bytes and port the client sent.
pub proof fn lemma_fixed_addr_exchange(
    nmethods: u8,
    methods: Seq<u8>,
    atyp: u8,
    payload: Seq<u8>,
    hi: u8,
    lo: u8,
)
    requires
        nmethods != 0,
        methods.len() == nmethods,
        (atyp == ATYP_IPV4 && payload.len() == 4) || (atyp == ATYP_IPV6 && payload.len() == 16),
    ensures
        ({
            let m1 = step_of(InboundMode::Greeting, seq![5u8, nmethods]);
            let m2 = step_of(m1, methods);
            let m3 = step_of(m2, seq![5u8, 1u8, 0u8, atyp]);
            let m4 = step_of(m3, payload);
            let m5 = step_of(m4, seq![hi, lo]);
            needed_of(InboundMode::Greeting) == 2 && m1 == (InboundMode::Methods { nmethods })
                && needed_of(m1) == nmethods && reply_of(m1) == Some(seq![5u8, 0u8]) && reply_of(
                InboundMode::Greeting,
            ) is None && m2 == InboundMode::Request && needed_of(m2) == 4 && needed_of(m3)
                == payload.len() && needed_of(m4) == 2 && m5 == (InboundMode::Done {
                addr: if atyp == ATYP_IPV4 {
                    AddrForm::Ipv4(payload)
                } else {
                    AddrForm::Ipv6(payload)
                },
                port: (hi * 256 + lo) as u16,
            })
        }),
{
}

/// The same exchange for a domain-name target, which inserts the
/// length-byte read between the request header and the payload.
pub proof fn lemma_domain_exchange(
    nmethods: u8,
    methods: Seq<u8>,
    dlen: u8,
    payload: Seq<u8>,
    hi: u8,
    lo: u8,
)
    requires
        nmethods != 0,
        methods.len() == nmethods,
        payload.len() == dlen,
    ensures
        ({
            let m1 = step_of(InboundMode::Greeting, seq![5u8, nmethods]);
            let m2 = step_of(m1, methods);
            let m3 = step_of(m2, seq![5u8, 1u8, 0u8, ATYP_DOMAIN]);
            let m4 = step_of(m3, seq![dlen]);
            let m5 = step_of(m4, payload);
            let m6 = step_of(m5, seq![hi, lo]);
            m1 == (InboundMode::Methods { nmethods }) && reply_of(m1) == Some(seq![5u8, 0u8])
                && m2 == InboundMode::Request && m3 == InboundMode::DomainLen && needed_of(m3)
                == 1 && m4 == (InboundMode::Addr { atyp: ATYP_DOMAIN, len: dlen }) && needed_of(
                m4,
            ) == dlen && m6 == (InboundMode::Done {
                addr: AddrForm::Domain(payload),
                port: (hi * 256 + lo) as u16,
            })
        }),
{
}

/// The big-endian wire form of a port.
pub open spec fn be16(p: u16) -> Seq<u8> {
    seq![(p / 256) as u8, (p % 256) as u8]
}

/// Reassembles a port from its two big-endian wire bytes; the value
/// re-encodes to exactly those bytes.
pub fn port_from_be(hi: u8, lo: u8) -> (p: u16)
    ensures
        p == hi as int * 256 + lo as int,
        be16(p) == seq![hi, lo],
{
    let p: u16 = (hi as u16) * 256 + (lo as u16);
    proof {
        assert(p / 256 == hi && p % 256 == lo) by (nonlinear_arith)
            requires
                p == hi as int * 256 + lo as int,
                lo < 256,
                hi < 256,
        ;
        assert(be16(p) =~= seq![hi, lo]);
    }
    p
}

/// The greeting this proxy sends when it acts as the SOCKS5 client:
/// version 5, one method offered, method 0 (no authentication).
pub fn outbound_greeting() -> (r: Vec<u8>)
    ensures
        r@ == seq![5u8, 1u8, 0u8],
{
    let mut buf: Vec<u8> = Vec::new();
    buf.push(5);
    buf.push(1);
    buf.push(0);
    proof {
        assert(buf@ =~= seq![5u8, 1u8, 0u8]);
    }
    buf
}

/// Checks the proxy's 2-byte method-selection reply: anything but
/// `[5, 0]` means no-authentication was rejected.
pub fn check_auth_reply(b0: u8, b1: u8) -> (r: Result<(), ProtocolError>)
    ensures
        r is Ok <==> (b0 == 5 && b1 == 0),
        r is Err ==> r == Err::<(), ProtocolError>(ProtocolError::AuthRejected),
{
    if b0 == 5 && b1 == 0 {
        Ok(())
    } else {
        Err(ProtocolError::AuthRejected)
    }
}

/// Appends all of `src` to `dst`.
fn push_all(dst: &mut Vec<u8>, src: &Vec<u8>)
    ensures
        final(dst)@ == old(dst)@ + src@,
{
    let mut i: usize = 0;
    while i < src.len()
        invariant
            i <= src@.len(),
            dst@ == old(dst)@ + src@.take(i as int),
        decreases src@.len() - i,
    {
        dst.push(src[i]);
        proof {
            assert(old(dst)@ + src@.take(i + 1 as int) =~= (old(dst)@ + src@.take(i as int)).push(
                src@[i as int],
            ));
        }
        i = i + 1;
    }
    proof {
        assert(src@.take(src@.len() as int) =~= src@);
    }
}

/// Builds the CONNECT request sent to the chosen proxy: the fixed header
/// `[5, 1, 0]`, the target's wire-encoded address, and the port in
/// big-endian.
pub fn build_connect_request(addr: &SocksAddr, port: u16) -> (r: Vec<u8>)
    requires
        addr@.wf(),
    ensures
        r@ == seq![5u8, 1u8, 0u8] + addr@.wire() + be16(port),
{
    let mut buf: Vec<u8> = Vec::new();
    buf.push(5);
    buf.push(1);
    buf.push(0);
    match addr {
        SocksAddr::Ipv4(b) => {
            buf.push(ATYP_IPV4);
            push_all(&mut buf, b);
        }
        SocksAddr::Domain(b) => {
            buf.push(ATYP_DOMAIN);
            buf.push(b.len() as u8);
            push_all(&mut buf, b);
        }
        SocksAddr::Ipv6(b) => {
            buf.push(ATYP_IPV6);
            push_all(&mut buf, b);
        }
    }
    buf.push((port / 256) as u8);
    buf.push((port % 256) as u8);
    proof {
        assert(buf@ =~= seq![5u8, 1u8, 0u8] + addr@.wire() + be16(port));
    }
    buf
}

} // verus!

