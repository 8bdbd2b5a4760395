//! The SOCKS5 address codec.
//!
//! A target address travels on the wire as a one-byte address-type tag
//! (1 = IPv4, 3 = domain name, 4 = IPv6) followed by the raw payload
//! bytes: 4 bytes, a one-byte length plus that many bytes, or 16 bytes.
//! Domain bytes are passed through unchanged; no validation of their
//! content is performed, only of the length, which must fit the wire's
//! single length byte.

use vstd::prelude::*;
use vstd::string::StringExecFns;
use crate::error::ProtocolError;

verus! {

/// Wire tag of an IPv4 address.
pub const ATYP_IPV4: u8 = 1;
/// Wire tag of a domain name.
pub const ATYP_DOMAIN: u8 = 3;
/// Wire tag of an IPv6 address.
pub const ATYP_IPV6: u8 = 4;

/// A parsed SOCKS5 target address, owning its payload bytes.
#[derive(Debug)]
pub enum SocksAddr {
    /// Four raw IPv4 octets.
    Ipv4(Vec<u8>),
    /// A domain name of at most 255 arbitrary bytes.
    Domain(Vec<u8>),
    /// Sixteen raw IPv6 octets.
    Ipv6(Vec<u8>),
}

/// The mathematical form of a [`SocksAddr`]: the same three variants over
/// byte sequences.
pub enum AddrForm {
    Ipv4(Seq<u8>),
    Domain(Seq<u8>),
    Ipv6(Seq<u8>),
}

impl AddrForm {
    /// The payload length matches what the variant's tag dictates.
    pub open spec fn wf(self) -> bool {
        match self {
            AddrForm::Ipv4(b) => b.len() == 4,
            AddrForm::Domain(b) => b.len() <= 255,
            AddrForm::Ipv6(b) => b.len() == 16,
        }
    }

    /// The wire address-type tag of this variant.
    pub open spec fn tag(self) -> u8 {
        match self {
            AddrForm::Ipv4(_) => ATYP_IPV4,
            AddrForm::Domain(_) => ATYP_DOMAIN,
            AddrForm::Ipv6(_) => ATYP_IPV6,
        }
    }

    /// The raw payload bytes, without the tag or the domain length byte.
    pub open spec fn payload(self) -> Seq<u8> {
        match self {
            AddrForm::Ipv4(b) => b,
            AddrForm::Domain(b) => b,
            AddrForm::Ipv6(b) => b,
        }
    }

    /// The full wire encoding: tag byte, then for a domain its length
    /// byte, then the payload.
    pub open spec fn wire(self) -> Seq<u8> {
        match self {
            AddrForm::Ipv4(b) => seq![ATYP_IPV4] + b,
            AddrForm::Domain(b) => seq![ATYP_DOMAIN, b.len() as u8] + b,
            AddrForm::Ipv6(b) => seq![ATYP_IPV6] + b,
        }
    }
}

impl View for SocksAddr {
    type V = AddrForm;

    open spec fn view(&self) -> AddrForm {
        match self {
            SocksAddr::Ipv4(b) => AddrForm::Ipv4(b@),
            SocksAddr::Domain(b) => AddrForm::Domain(b@),
            SocksAddr::Ipv6(b) => AddrForm::Ipv6(b@),
        }
    }
}

/// What decoding a tag and its payload yields: the address for the three
/// known tags, the protocol error naming the tag for any other.
pub open spec fn spec_decode(atyp: u8, payload: Seq<u8>) -> Result<AddrForm, ProtocolError> {
    if atyp == ATYP_IPV4 {
        Ok(AddrForm::Ipv4(payload))
    } else if atyp == ATYP_DOMAIN {
        Ok(AddrForm::Domain(payload))
    } else if atyp == ATYP_IPV6 {
        Ok(AddrForm::Ipv6(payload))
    } else {
        Err(ProtocolError::UnsupportedAddressType(atyp))
    }
}

impl SocksAddr {
    /// The wire address-type tag of this address.
    pub fn atyp(&self) -> (t: u8)
        ensures
            t == self@.tag(),
    {
        match self {
            SocksAddr::Ipv4(_) => ATYP_IPV4,
            SocksAddr::Domain(_) => ATYP_DOMAIN,
            SocksAddr::Ipv6(_) => ATYP_IPV6,
        }
    }

    /// The raw payload bytes of this address.
    pub fn addr_bytes(&self) -> (b: &Vec<u8>)
        ensures
            b@ == self@.payload(),
    {
        match self {
            SocksAddr::Ipv4(b) => b,
            SocksAddr::Domain(b) => b,
            SocksAddr::Ipv6(b) => b,
        }
    }

    /// Decodes an address-type tag and the matching raw payload bytes.
    ///
    /// Succeeds exactly on the three known tags; any other tag is
    /// reported, with its value, as an unsupported address type.
    pub fn decode(atyp: u8, payload: Vec<u8>) -> (r: Result<SocksAddr, ProtocolError>)
        requires
            atyp == ATYP_IPV4 ==> payload@.len() == 4,
            atyp == ATYP_DOMAIN ==> payload@.len() <= 255,
            atyp == ATYP_IPV6 ==> payload@.len() == 16,
        ensures
            match r {
                Ok(a) => spec_decode(atyp, payload@) == Ok::<AddrForm, ProtocolError>(a@)
                    && a@.wf(),
                Err(e) => spec_decode(atyp, payload@) == Err::<AddrForm, ProtocolError>(e),
            },
    {
        if atyp == ATYP_IPV4 {
            Ok(SocksAddr::Ipv4(payload))
        } else if atyp == ATYP_DOMAIN {
            Ok(SocksAddr::Domain(payload))
        } else if atyp == ATYP_IPV6 {
            Ok(SocksAddr::Ipv6(payload))
        } else {
            Err(ProtocolError::UnsupportedAddressType(atyp))
        }
    }
}

/// The character of a decimal digit value.
pub open spec fn dec_digit_char(n: int) -> char {
    if n == 0 {
        '0'
    } else if n == 1 {
        '1'
    } else if n == 2 {
        '2'
    } else if n == 3 {
        '3'
    } else if n == 4 {
        '4'
    } else if n == 5 {
        '5'
    } else if n == 6 {
        '6'
    } else if n == 7 {
        '7'
    } else if n == 8 {
        '8'
    } else {
        '9'
    }
}

/// The uppercase character of a hexadecimal digit value.
pub open spec fn hex_digit_char(n: int) -> char {
    if n < 10 {
        dec_digit_char(n)
    } else if n == 10 {
        'A'
    } else if n == 11 {
        'B'
    } else if n == 12 {
        'C'
    } else if n == 13 {
        'D'
    } else if n == 14 {
        'E'
    } else {
        'F'
    }
}

/// Decimal rendering of a byte value, without leading zeros.
pub open spec fn dec_chars(n: int) -> Seq<char> {
    if n < 10 {
        seq![dec_digit_char(n)]
    } else if n < 100 {
        seq![dec_digit_char(n / 10), dec_digit_char(n % 10)]
    } else {
        seq![dec_digit_char(n / 100), dec_digit_char((n / 10) % 10), dec_digit_char(n % 10)]
    }
}

/// Two-digit uppercase hexadecimal rendering of a byte value.
pub open spec fn hex_chars(n: int) -> Seq<char> {
    seq![hex_digit_char(n / 16), hex_digit_char(n % 16)]
}

/// What the quoted, escaped rendering of arbitrary domain bytes yields;
/// it depends on the bytes alone and never fails.
pub uninterp spec fn byte_string_repr(s: Seq<u8>) -> Seq<char>;

/// The display form of an address: dotted-quad for IPv4; for IPv6 the
/// eight colon-separated groups as uppercase hex byte pairs, in
/// brackets; for a domain a quoted, escaped byte string fit for logs.
pub open spec fn display_of(a: AddrForm) -> Seq<char> {
    match a {
        AddrForm::Ipv4(b) => dec_chars(b[0] as int) + seq!['.'] + dec_chars(b[1] as int)
            + seq!['.'] + dec_chars(b[2] as int) + seq!['.'] + dec_chars(b[3] as int),
        AddrForm::Domain(b) => byte_string_repr(b),
        AddrForm::Ipv6(b) => seq!['['] + hex_chars(b[0] as int) + hex_chars(b[1] as int)
            + seq![':'] + hex_chars(b[2] as int) + hex_chars(b[3] as int) + seq![':'] + hex_chars(
            b[4] as int,
        ) + hex_chars(b[5] as int) + seq![':'] + hex_chars(b[6] as int) + hex_chars(b[7] as int)
            + seq![':'] + hex_chars(b[8] as int) + hex_chars(b[9] as int) + seq![':'] + hex_chars(
            b[10] as int,
        ) + hex_chars(b[11] as int) + seq![':'] + hex_chars(b[12] as int) + hex_chars(
            b[13] as int,
        ) + seq![':'] + hex_chars(b[14] as int) + hex_chars(b[15] as int) + seq![']'],
    }
}

/// Relies on bstr's byte-string Debug rendering: a quoted form with
/// non-text bytes escaped, defined for every byte sequence; the result
/// depends on the bytes alone.
#[verifier::external_body]
fn domain_repr(b: &Vec<u8>) -> (r: String)
    ensures
        r@ == byte_string_repr(b@),
{
    format!("{:?}", bstr::BStr::new(b.as_slice()))
}

/// Appends one decimal digit.
fn push_dec_digit(s: &mut String, d: u8)
    requires
        d < 10,
    ensures
        final(s)@ == old(s)@ + seq![dec_digit_char(d as int)],
{
    proof {
        reveal_strlit("0");
        reveal_strlit("1");
        reveal_strlit("2");
        reveal_strlit("3");
        reveal_strlit("4");
        reveal_strlit("5");
        reveal_strlit("6");
        reveal_strlit("7");
        reveal_strlit("8");
        reveal_strlit("9");
    }
    if d == 0 {
        s.append("0");
    } else if d == 1 {
        s.append("1");
    } else if d == 2 {
        s.append("2");
    } else if d == 3 {
        s.append("3");
    } else if d == 4 {
        s.append("4");
    } else if d == 5 {
        s.append("5");
    } else if d == 6 {
        s.append("6");
    } else if d == 7 {
        s.append("7");
    } else if d == 8 {
        s.append("8");
    } else {
        s.append("9");
    }
    proof {
        assert(final(s)@ =~= old(s)@ + seq![dec_digit_char(d as int)]);
    }
}

/// Appends one uppercase hexadecimal digit.
fn push_hex_digit(s: &mut String, d: u8)
    requires
        d < 16,
    ensures
        final(s)@ == old(s)@ + seq![hex_digit_char(d as int)],
{
    if d < 10 {
        push_dec_digit(s, d);
    } else {
        proof {
            reveal_strlit("A");
            reveal_strlit("B");
            reveal_strlit("C");
            reveal_strlit("D");
            reveal_strlit("E");
            reveal_strlit("F");
        }
        if d == 10 {
            s.append("A");
        } else if d == 11 {
            s.append("B");
        } else if d == 12 {
            s.append("C");
        } else if d == 13 {
            s.append("D");
        } else if d == 14 {
            s.append("E");
        } else {
            s.append("F");
        }
        proof {
            assert(final(s)@ =~= old(s)@ + seq![hex_digit_char(d as int)]);
        }
    }
}

/// Appends a byte value in decimal, without leading zeros.
fn push_dec_byte(s: &mut String, n: u8)
    ensures
        final(s)@ == old(s)@ + dec_chars(n as int),
{
    if n < 10 {
        push_dec_digit(s, n);
    } else if n < 100 {
        push_dec_digit(s, n / 10);
        push_dec_digit(s, n % 10);
    } else {
        push_dec_digit(s, n / 100);
        push_dec_digit(s, (n / 10) % 10);
        push_dec_digit(s, n % 10);
    }
    proof {
        assert(final(s)@ =~= old(s)@ + dec_chars(n as int));
    }
}

/// Appends a byte value as two uppercase hexadecimal digits.
fn push_hex_byte(s: &mut String, n: u8)
    ensures
        final(s)@ == old(s)@ + hex_chars(n as int),
{
    push_hex_digit(s, n / 16);
    push_hex_digit(s, n % 16);
    proof {
        assert(final(s)@ =~= old(s)@ + hex_chars(n as int));
    }
}

impl SocksAddr {
    /// Renders the address for logs. Defined for every byte content:
    /// domain bytes need not be text and are shown quoted and escaped.
    pub fn display_string(&self) -> (r: String)
        requires
            self@.wf(),
        ensures
            r@ == display_of(self@),
    {
        match self {
            SocksAddr::Ipv4(b) => {
                let mut s = String::new();
                proof {
                    reveal_strlit(".");
                }
                push_dec_byte(&mut s, b[0]);
                s.append(".");
                push_dec_byte(&mut s, b[1]);
                s.append(".");
                push_dec_byte(&mut s, b[2]);
                s.append(".");
                push_dec_byte(&mut s, b[3]);
                proof {
                    assert(s@ =~= display_of(self@));
                }
                s
            }
            SocksAddr::Domain(b) => domain_repr(b),
            SocksAddr::Ipv6(b) => {
                let mut s = String::new();
                proof {
                    reveal_strlit("[");
                    reveal_strlit("]");
                    reveal_strlit(":");
                }
                s.append("[");
                push_hex_byte(&mut s, b[0]);
                push_hex_byte(&mut s, b[1]);
                s.append(":");
                push_hex_byte(&mut s, b[2]);
                push_hex_byte(&mut s, b[3]);
                s.append(":");
                push_hex_byte(&mut s, b[4]);
                push_hex_byte(&mut s, b[5]);
                s.append(":");
                push_hex_byte(&mut s, b[6]);
                push_hex_byte(&mut s, b[7]);
                s.append(":");
                push_hex_byte(&mut s, b[8]);
                push_hex_byte(&mut s, b[9]);
                s.append(":");
                push_hex_byte(&mut s, b[10]);
                push_hex_byte(&mut s, b[11]);
                s.append(":");
                push_hex_byte(&mut s, b[12]);
                push_hex_byte(&mut s, b[13]);
                s.append(":");
                push_hex_byte(&mut s, b[14]);
                push_hex_byte(&mut s, b[15]);
                s.append("]");
                proof {
                    assert(s@ =~= display_of(self@));
                }
                s
            }
        }
    }
}

/// Codec round trip: encoding a well-formed address as its tag and payload
/// and decoding that pair yields the original address.
pub proof fn lemma_codec_round_trip(a: AddrForm)
    requires
        a.wf(),
    ensures
        spec_decode(a.tag(), a.payload()) == Ok::<AddrForm, ProtocolError>(a),
{
    match a {
        AddrForm::Ipv4(b) => {}
        AddrForm::Domain(b) => {}
        AddrForm::Ipv6(b) => {}
    }
}

} // verus!
