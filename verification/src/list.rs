//! The proxy-list text format.
//!
//! A list is text with one `ip:port` entry per line: IPv4 as
//! `a.b.c.d:port`, IPv6 as `[addr]:port` with the usual `::`
//! zero-compression. Blank lines and lines beginning with `#` are
//! ignored. Any other malformed line fails the whole load; no partial
//! list is returned. The caller splits the text into lines (without
//! terminators) and hands them in as byte strings.

use vstd::prelude::*;
use crate::error::LoadError;

verus! {

/// A resolved upstream IP address.
#[derive(Clone, Copy, Debug, PartialEq, Eq, Structural)]
pub enum Ip {
    /// The four dotted-quad octets, in order.
    V4(u8, u8, u8, u8),
    /// The eight 16-bit groups, in order.
    V6(u16, u16, u16, u16, u16, u16, u16, u16),
}

/// A resolved upstream proxy endpoint; equality is by value.
#[derive(Clone, Copy, Debug, PartialEq, Eq, Structural)]
pub struct Endpoint {
    pub ip: Ip,
    pub port: u16,
}

/// ASCII decimal digit.
pub open spec fn is_digit(c: u8) -> bool {
    48 <= c <= 57
}

/// Value of an ASCII decimal digit.
pub open spec fn digit_val(c: u8) -> int {
    c - 48
}

/// ASCII hexadecimal digit, either case.
pub open spec fn is_hex_digit(c: u8) -> bool {
    is_digit(c) || (97 <= c <= 102) || (65 <= c <= 70)
}

/// Value of an ASCII hexadecimal digit.
pub open spec fn hex_digit_val(c: u8) -> int {
    if is_digit(c) {
        c - 48
    } else if 97 <= c <= 102 {
        c - 87
    } else {
        c - 55
    }
}

pub open spec fn all_digits(s: Seq<u8>) -> bool {
    forall|i: int| 0 <= i < s.len() ==> is_digit(#[trigger] s[i])
}

pub open spec fn all_hex_digits(s: Seq<u8>) -> bool {
    forall|i: int| 0 <= i < s.len() ==> is_hex_digit(#[trigger] s[i])
}

/// Value of a decimal digit string, most significant digit first.
pub open spec fn dec_value(s: Seq<u8>) -> int
    decreases s.len(),
{
    if s.len() == 0 {
        0
    } else {
        dec_value(s.drop_last()) * 10 + digit_val(s.last())
    }
}

/// Value of a hexadecimal digit string, most significant digit first.
pub open spec fn hex_value(s: Seq<u8>) -> int
    decreases s.len(),
{
    if s.len() == 0 {
        0
    } else {
        hex_value(s.drop_last()) * 16 + hex_digit_val(s.last())
    }
}

/// Ten to the given power.
pub open spec fn pow10(n: nat) -> int
    decreases n,
{
    if n == 0 {
        1
    } else {
        10 * pow10((n - 1) as nat)
    }
}

/// Sixteen to the given power.
pub open spec fn pow16(n: nat) -> int
    decreases n,
{
    if n == 0 {
        1
    } else {
        16 * pow16((n - 1) as nat)
    }
}

/// Splitting on a separator byte, with the token built so far.
pub open spec fn split_acc(s: Seq<u8>, c: u8, cur: Seq<u8>) -> Seq<Seq<u8>>
    decreases s.len(),
{
    if s.len() == 0 {
        seq![cur]
    } else if s[0] == c {
        seq![cur] + split_acc(s.skip(1), c, Seq::empty())
    } else {
        split_acc(s.skip(1), c, cur.push(s[0]))
    }
}

/// The tokens of `s` split on every occurrence of `c`; adjacent
/// separators yield empty tokens, and there is always one more token
/// than there are separators.
pub open spec fn split_bytes(s: Seq<u8>, c: u8) -> Seq<Seq<u8>> {
    split_acc(s, c, Seq::empty())
}

/// A dotted-quad octet: one to three digits, no superfluous leading
/// zero, value at most 255.
pub open spec fn valid_octet(s: Seq<u8>) -> bool {
    1 <= s.len() <= 3 && all_digits(s) && (s.len() == 1 || s[0] != 48) && dec_value(s) <= 255
}

/// A port: one to five digits with value at most 65535.
pub open spec fn valid_port_text(s: Seq<u8>) -> bool {
    1 <= s.len() <= 5 && all_digits(s) && dec_value(s) <= 65535
}

/// An IPv6 group: one to four hexadecimal digits.
pub open spec fn valid_group(s: Seq<u8>) -> bool {
    1 <= s.len() <= 4 && all_hex_digits(s)
}

/// Dotted-quad text: four valid octets separated by dots.
pub open spec fn valid_v4_text(s: Seq<u8>) -> bool {
    let p = split_bytes(s, 46);
    p.len() == 4 && valid_octet(p[0]) && valid_octet(p[1]) && valid_octet(p[2]) && valid_octet(
        p[3],
    )
}

/// The address denoted by valid dotted-quad text.
pub open spec fn v4_of_text(s: Seq<u8>) -> Ip {
    let p = split_bytes(s, 46);
    Ip::V4(
        dec_value(p[0]) as u8,
        dec_value(p[1]) as u8,
        dec_value(p[2]) as u8,
        dec_value(p[3]) as u8,
    )
}

/// The first position where `::` begins, or -1 if there is none.
pub open spec fn first_dcolon(s: Seq<u8>) -> int
    decreases s.len(),
{
    if s.len() < 2 {
        -1
    } else if s[0] == 58 && s[1] == 58 {
        0
    } else {
        let r = first_dcolon(s.skip(1));
        if r < 0 {
            -1
        } else {
            1 + r
        }
    }
}

pub open spec fn valid_group_list(p: Seq<Seq<u8>>) -> bool {
    forall|i: int| 0 <= i < p.len() ==> valid_group(#[trigger] p[i])
}

/// The group values of a list of valid group texts.
pub open spec fn group_vals(p: Seq<Seq<u8>>) -> Seq<u16> {
    p.map_values(|g: Seq<u8>| hex_value(g) as u16)
}

/// IPv6 text between the brackets: either eight colon-separated groups,
/// or at most seven groups around one `::`, which stands for the
/// missing all-zero groups. The text left and right of the `::` is
/// split on single colons; a stray extra colon anywhere produces an
/// empty token and fails the group check.
pub open spec fn valid_v6_text(s: Seq<u8>) -> bool {
    let d = first_dcolon(s);
    if d < 0 {
        let p = split_bytes(s, 58);
        p.len() == 8 && valid_group_list(p)
    } else {
        let left = s.take(d);
        let right = s.skip(d + 2);
        let lp = if left.len() == 0 {
            Seq::<Seq<u8>>::empty()
        } else {
            split_bytes(left, 58)
        };
        let rp = if right.len() == 0 {
            Seq::<Seq<u8>>::empty()
        } else {
            split_bytes(right, 58)
        };
        valid_group_list(lp) && valid_group_list(rp) && lp.len() + rp.len() <= 7
    }
}

/// The eight group values denoted by valid IPv6 text.
pub open spec fn v6_groups(s: Seq<u8>) -> Seq<u16> {
    let d = first_dcolon(s);
    if d < 0 {
        group_vals(split_bytes(s, 58))
    } else {
        let left = s.take(d);
        let right = s.skip(d + 2);
        let lp = if left.len() == 0 {
            Seq::<Seq<u8>>::empty()
        } else {
            split_bytes(left, 58)
        };
        let rp = if right.len() == 0 {
            Seq::<Seq<u8>>::empty()
        } else {
            split_bytes(right, 58)
        };
        group_vals(lp) + Seq::new((8 - lp.len() - rp.len()) as nat, |i: int| 0u16) + group_vals(rp)
    }
}

/// The address denoted by valid IPv6 text.
pub open spec fn v6_of_text(s: Seq<u8>) -> Ip {
    let g = v6_groups(s);
    Ip::V6(g[0], g[1], g[2], g[3], g[4], g[5], g[6], g[7])
}

/// Blank lines and `#` comments carry no entry.
pub open spec fn skippable(s: Seq<u8>) -> bool {
    s.len() == 0 || s[0] == 35
}

/// The endpoint a line denotes: a bracketed line is an IPv6 entry, any
/// other an IPv4 entry, each followed by `:` and a port. `None` means
/// the line is malformed.
pub open spec fn line_endpoint(s: Seq<u8>) -> Option<Endpoint> {
    if s.len() > 0 && s[0] == 91 {
        let p = split_bytes(s, 93);
        if p.len() == 2 && p[1].len() >= 1 && p[1][0] == 58 && valid_v6_text(p[0].skip(1))
            && valid_port_text(p[1].skip(1)) {
            Some(Endpoint { ip: v6_of_text(p[0].skip(1)), port: dec_value(p[1].skip(1)) as u16 })
        } else {
            None
        }
    } else {
        let p = split_bytes(s, 58);
        if p.len() == 2 && valid_v4_text(p[0]) && valid_port_text(p[1]) {
            Some(Endpoint { ip: v4_of_text(p[0]), port: dec_value(p[1]) as u16 })
        } else {
            None
        }
    }
}

/// A line the loader accepts: skippable, or a well-formed entry.
pub open spec fn line_ok(s: Seq<u8>) -> bool {
    skippable(s) || line_endpoint(s) is Some
}

/// The endpoints of a fully valid list of lines, in file order.
pub open spec fn spec_endpoints(lines: Seq<Seq<u8>>) -> Seq<Endpoint>
    decreases lines.len(),
{
    if lines.len() == 0 {
        Seq::empty()
    } else {
        let rest = spec_endpoints(lines.drop_last());
        if skippable(lines.last()) {
            rest
        } else {
            match line_endpoint(lines.last()) {
                Some(e) => rest.push(e),
                None => rest,
            }
        }
    }
}

proof fn lemma_pow10_small()
    ensures
        pow10(0) == 1,
        pow10(1) == 10,
        pow10(2) == 100,
        pow10(3) == 1000,
        pow10(4) == 10000,
        pow10(5) == 100000,
{
    assert(pow10(1) == 10 * pow10(0));
    assert(pow10(2) == 10 * pow10(1));
    assert(pow10(3) == 10 * pow10(2));
    assert(pow10(4) == 10 * pow10(3));
    assert(pow10(5) == 10 * pow10(4));
}

proof fn lemma_pow16_small()
    ensures
        pow16(0) == 1,
        pow16(1) == 16,
        pow16(2) == 256,
        pow16(3) == 4096,
        pow16(4) == 65536,
{
    assert(pow16(1) == 16 * pow16(0));
    assert(pow16(2) == 16 * pow16(1));
    assert(pow16(3) == 16 * pow16(2));
    assert(pow16(4) == 16 * pow16(3));
}

/// Where no `::` occurs, `first_dcolon` reports none.
proof fn lemma_first_dcolon_none(s: Seq<u8>)
    requires
        forall|j: int| 0 <= j && j + 1 < s.len() ==> !(#[trigger] s[j] == 58 && s[j + 1] == 58),
    ensures
        first_dcolon(s) == -1,
    decreases s.len(),
{
    if s.len() >= 2 {
        let t = s.skip(1);
        assert(forall|j: int|
            0 <= j && j + 1 < t.len() ==> !(#[trigger] t[j] == 58 && t[j + 1] == 58)) by {
            assert(forall|j: int| 0 <= j < t.len() ==> #[trigger] t[j] == s[j + 1]);
        }
        lemma_first_dcolon_none(t);
    }
}

/// The position of the first `::` determines `first_dcolon`.
proof fn lemma_first_dcolon_at(s: Seq<u8>, i: int)
    requires
        0 <= i,
        i + 1 < s.len(),
        s[i] == 58,
        s[i + 1] == 58,
        forall|j: int| 0 <= j < i ==> !(#[trigger] s[j] == 58 && s[j + 1] == 58),
    ensures
        first_dcolon(s) == i,
    decreases i,
{
    if i > 0 {
        let t = s.skip(1);
        assert(forall|j: int| 0 <= j < t.len() ==> #[trigger] t[j] == s[j + 1]);
        assert(forall|j: int| 0 <= j < i - 1 ==> !(#[trigger] t[j] == 58 && t[j + 1] == 58));
        lemma_first_dcolon_at(t, i - 1);
    }
}

/// Element view of a vector of byte vectors.
proof fn lemma_deep_view_vec(v: &Vec<Vec<u8>>)
    ensures
        v.deep_view().len() == v@.len(),
        forall|i: int| 0 <= i < v@.len() ==> #[trigger] v.deep_view()[i] == v@[i]@,
{
    assert forall|i: int| 0 <= i < v@.len() implies #[trigger] v.deep_view()[i] == v@[i]@ by {
        assert(v.deep_view()[i] =~= v@[i]@);
    }
}

/// Copies `s[from..to]` out as a fresh vector.
fn byte_range(s: &Vec<u8>, from: usize, to: usize) -> (r: Vec<u8>)
    requires
        from <= to <= s@.len(),
    ensures
        r@ == s@.subrange(from as int, to as int),
{
    let mut r: Vec<u8> = Vec::new();
    let mut j: usize = from;
    while j < to
        invariant
            from <= j <= to <= s@.len(),
            r@ == s@.subrange(from as int, j as int),
        decreases to - j,
    {
        r.push(s[j]);
        proof {
            assert(s@.subrange(from as int, j + 1 as int) =~= s@.subrange(from as int, j as int)
                .push(s@[j as int]));
        }
        j = j + 1;
    }
    r
}

/// Splits a byte string on every occurrence of `c`.
fn split_exec(s: &Vec<u8>, c: u8) -> (r: Vec<Vec<u8>>)
    ensures
        r.deep_view() == split_bytes(s@, c),
        r@.len() >= 1,
{
    let mut parts: Vec<Vec<u8>> = Vec::new();
    let mut cur: Vec<u8> = Vec::new();
    let mut i: usize = 0;
    proof {
        assert(s@.skip(0) =~= s@);
        assert(parts.deep_view() =~~= Seq::<Seq<u8>>::empty());
        assert(Seq::<Seq<u8>>::empty() + split_acc(s@, c, Seq::empty()) =~~= split_acc(
            s@,
            c,
            Seq::empty(),
        ));
    }
    while i < s.len()
        invariant
            i <= s@.len(),
            split_bytes(s@, c) == parts.deep_view() + split_acc(s@.skip(i as int), c, cur@),
        decreases s@.len() - i,
    {
        proof {
            assert(s@.skip(i as int).len() == s@.len() - i);
            assert(s@.skip(i as int)[0] == s@[i as int]);
            assert(s@.skip(i as int).skip(1) =~= s@.skip(i + 1 as int));
        }
        if s[i] == c {
            let ghost old_parts = parts.deep_view();
            let ghost old_cur = cur@;
            parts.push(cur);
            cur = Vec::new();
            proof {
                assert(parts.deep_view() =~~= old_parts.push(old_cur));
                assert(split_acc(s@.skip(i as int), c, old_cur) == seq![old_cur] + split_acc(
                    s@.skip(i + 1 as int),
                    c,
                    Seq::empty(),
                ));
                assert(old_parts + (seq![old_cur] + split_acc(s@.skip(i + 1 as int), c, cur@))
                    =~~= parts.deep_view() + split_acc(s@.skip(i + 1 as int), c, cur@));
            }
        } else {
            cur.push(s[i]);
        }
        i = i + 1;
    }
    proof {
        assert(s@.skip(s@.len() as int).len() == 0);
    }
    let ghost old_parts = parts.deep_view();
    let ghost old_cur = cur@;
    parts.push(cur);
    proof {
        assert(parts.deep_view() =~~= old_parts.push(old_cur));
        assert(old_parts + seq![old_cur] =~~= old_parts.push(old_cur));
    }
    parts
}

/// Parses an unsigned decimal of one to five digits.
fn parse_dec(s: &Vec<u8>) -> (r: Option<u32>)
    ensures
        match r {
            Some(v) => 1 <= s@.len() <= 5 && all_digits(s@) && v as int == dec_value(s@),
            None => !(1 <= s@.len() <= 5 && all_digits(s@)),
        },
{
    if s.len() < 1 || s.len() > 5 {
        return None;
    }
    let mut acc: u32 = 0;
    let mut i: usize = 0;
    proof {
        lemma_pow10_small();
    }
    while i < s.len()
        invariant
            i <= s@.len() <= 5,
            all_digits(s@.take(i as int)),
            acc as int == dec_value(s@.take(i as int)),
            (acc as int) < pow10(i as nat),
            pow10(0) == 1,
            pow10(1) == 10,
            pow10(2) == 100,
            pow10(3) == 1000,
            pow10(4) == 10000,
            pow10(5) == 100000,
        decreases s@.len() - i,
    {
        let b = s[i];
        if b < 48 || b > 57 {
            proof {
                assert(!is_digit(s@[i as int]));
            }
            return None;
        }
        proof {
            assert(s@.take(i + 1 as int).drop_last() =~= s@.take(i as int));
            assert(s@.take(i + 1 as int).last() == s@[i as int]);
            assert(forall|j: int|
                0 <= j < i + 1 ==> #[trigger] s@.take(i + 1 as int)[j] == s@[j]);
            assert(pow10((i + 1) as nat) == 10 * pow10(i as nat));
        }
        acc = acc * 10 + (b - 48) as u32;
        i = i + 1;
    }
    proof {
        assert(s@.take(s@.len() as int) =~= s@);
    }
    Some(acc)
}

/// Parses a hexadecimal group of one to four digits.
fn parse_hex(s: &Vec<u8>) -> (r: Option<u16>)
    ensures
        match r {
            Some(v) => valid_group(s@) && v as int == hex_value(s@),
            None => !valid_group(s@),
        },
{
    if s.len() < 1 || s.len() > 4 {
        return None;
    }
    let mut acc: u32 = 0;
    let mut i: usize = 0;
    proof {
        lemma_pow16_small();
    }
    while i < s.len()
        invariant
            i <= s@.len() <= 4,
            all_hex_digits(s@.take(i as int)),
            acc as int == hex_value(s@.take(i as int)),
            (acc as int) < pow16(i as nat),
            pow16(0) == 1,
            pow16(1) == 16,
            pow16(2) == 256,
            pow16(3) == 4096,
            pow16(4) == 65536,
        decreases s@.len() - i,
    {
        let b = s[i];
        let d: u32;
        if 48 <= b && b <= 57 {
            d = (b - 48) as u32;
        } else if 97 <= b && b <= 102 {
            d = (b - 87) as u32;
        } else if 65 <= b && b <= 70 {
            d = (b - 55) as u32;
        } else {
            proof {
                assert(!is_hex_digit(s@[i as int]));
            }
            return None;
        }
        proof {
            assert(s@.take(i + 1 as int).drop_last() =~= s@.take(i as int));
            assert(s@.take(i + 1 as int).last() == s@[i as int]);
            assert(forall|j: int|
                0 <= j < i + 1 ==> #[trigger] s@.take(i + 1 as int)[j] == s@[j]);
            assert(pow16((i + 1) as nat) == 16 * pow16(i as nat));
        }
        acc = acc * 16 + d;
        i = i + 1;
    }
    proof {
        assert(s@.take(s@.len() as int) =~= s@);
    }
    Some(acc as u16)
}

/// Parses a dotted-quad octet.
fn parse_octet(s: &Vec<u8>) -> (r: Option<u8>)
    ensures
        match r {
            Some(v) => valid_octet(s@) && v as int == dec_value(s@),
            None => !valid_octet(s@),
        },
{
    if s.len() < 1 || s.len() > 3 {
        return None;
    }
    if s.len() > 1 && s[0] == 48 {
        return None;
    }
    match parse_dec(s) {
        Some(v) => {
            if v <= 255 {
                Some(v as u8)
            } else {
                None
            }
        }
        None => None,
    }
}

/// Parses a port.
fn parse_port(s: &Vec<u8>) -> (r: Option<u16>)
    ensures
        match r {
            Some(v) => valid_port_text(s@) && v as int == dec_value(s@),
            None => !valid_port_text(s@),
        },
{
    match parse_dec(s) {
        Some(v) => {
            if v <= 65535 {
                Some(v as u16)
            } else {
                None
            }
        }
        None => None,
    }
}

/// Parses every part as a hexadecimal group.
fn parse_groups(parts: &Vec<Vec<u8>>) -> (r: Option<Vec<u16>>)
    ensures
        match r {
            Some(v) => valid_group_list(parts.deep_view()) && v@ == group_vals(parts.deep_view()),
            None => !valid_group_list(parts.deep_view()),
        },
{
    proof {
        lemma_deep_view_vec(parts);
    }
    let ghost dv = parts.deep_view();
    let mut vals: Vec<u16> = Vec::new();
    let mut i: usize = 0;
    while i < parts.len()
        invariant
            i <= parts@.len(),
            dv == parts.deep_view(),
            dv.len() == parts@.len(),
            forall|j: int| 0 <= j < parts@.len() ==> #[trigger] dv[j] == parts@[j]@,
            forall|j: int| 0 <= j < i ==> valid_group(#[trigger] dv[j]),
            vals@ == group_vals(dv.take(i as int)),
        decreases parts@.len() - i,
    {
        match parse_hex(&parts[i]) {
            Some(v) => {
                vals.push(v);
                proof {
                    assert(group_vals(dv.take(i + 1 as int)) =~= group_vals(dv.take(i as int))
                        .push(hex_value(dv[i as int]) as u16));
                }
            }
            None => {
                proof {
                    assert(!valid_group(dv[i as int]));
                }
                return None;
            }
        }
        i = i + 1;
    }
    proof {
        assert(dv.take(dv.len() as int) =~= dv);
    }
    Some(vals)
}

/// Parses dotted-quad text.
fn parse_v4_text(s: &Vec<u8>) -> (r: Option<Ip>)
    ensures
        match r {
            Some(ip) => valid_v4_text(s@) && ip == v4_of_text(s@),
            None => !valid_v4_text(s@),
        },
{
    let parts = split_exec(s, 46);
    proof {
        lemma_deep_view_vec(&parts);
    }
    if parts.len() != 4 {
        return None;
    }
    let a = match parse_octet(&parts[0]) {
        Some(v) => v,
        None => {
            return None;
        }
    };
    let b = match parse_octet(&parts[1]) {
        Some(v) => v,
        None => {
            return None;
        }
    };
    let c = match parse_octet(&parts[2]) {
        Some(v) => v,
        None => {
            return None;
        }
    };
    let d = match parse_octet(&parts[3]) {
        Some(v) => v,
        None => {
            return None;
        }
    };
    Some(Ip::V4(a, b, c, d))
}

/// Finds the first `::`, if any.
fn find_dcolon(s: &Vec<u8>) -> (r: Option<usize>)
    ensures
        match r {
            Some(i) => first_dcolon(s@) == i as int && i + 1 < s@.len(),
            None => first_dcolon(s@) == -1,
        },
{
    if s.len() < 2 {
        proof {
            lemma_first_dcolon_none(s@);
        }
        return None;
    }
    let mut i: usize = 0;
    let last = s.len() - 1;
    while i < last
        invariant
            last + 1 == s@.len(),
            i <= last,
            forall|j: int| 0 <= j < i ==> !(#[trigger] s@[j] == 58 && s@[j + 1] == 58),
        decreases last - i,
    {
        if s[i] == 58 && s[i + 1] == 58 {
            proof {
                lemma_first_dcolon_at(s@, i as int);
            }
            return Some(i);
        }
        i = i + 1;
    }
    proof {
        lemma_first_dcolon_none(s@);
    }
    None
}

/// Parses bracket-interior IPv6 text into its eight groups.
fn parse_v6_text(s: &Vec<u8>) -> (r: Option<Ip>)
    ensures
        match r {
            Some(ip) => valid_v6_text(s@) && ip == v6_of_text(s@),
            None => !valid_v6_text(s@),
        },
{
    let mut groups: Vec<u16> = Vec::new();
    match find_dcolon(s) {
        None => {
            let parts = split_exec(s, 58);
            if parts.len() != 8 {
                return None;
            }
            let vals = match parse_groups(&parts) {
                Some(v) => v,
                None => {
                    return None;
                }
            };
            groups = vals;
        }
        Some(d) => {
            let n = s.len();
            let left = byte_range(s, 0, d);
            let right = byte_range(s, d + 2, n);
            proof {
                assert(left@ =~= s@.take(d as int));
                assert(right@ =~= s@.skip(d + 2 as int));
            }
            let lvals: Vec<u16>;
            if left.len() == 0 {
                lvals = Vec::new();
                proof {
                    assert(group_vals(Seq::<Seq<u8>>::empty()) =~= Seq::<u16>::empty());
                }
            } else {
                let lp = split_exec(&left, 58);
                lvals = match parse_groups(&lp) {
                    Some(v) => v,
                    None => {
                        return None;
                    }
                };
            }
            let rvals: Vec<u16>;
            if right.len() == 0 {
                rvals = Vec::new();
                proof {
                    assert(group_vals(Seq::<Seq<u8>>::empty()) =~= Seq::<u16>::empty());
                }
            } else {
                let rp = split_exec(&right, 58);
                rvals = match parse_groups(&rp) {
                    Some(v) => v,
                    None => {
                        return None;
                    }
                };
            }
            if lvals.len() > 7 {
                return None;
            }
            if rvals.len() > 7 - lvals.len() {
                return None;
            }
            let zeros = 8 - lvals.len() - rvals.len();
            let mut g: Vec<u16> = lvals;
            let mut z: usize = 0;
            let ghost lseq = g@;
            while z < zeros
                invariant
                    z <= zeros,
                    g@ == lseq + Seq::new(z as nat, |i: int| 0u16),
                decreases zeros - z,
            {
                g.push(0);
                proof {
                    assert(lseq + Seq::new((z + 1) as nat, |i: int| 0u16) =~= (lseq + Seq::new(
                        z as nat,
                        |i: int| 0u16,
                    )).push(0u16));
                }
                z = z + 1;
            }
            let mut k: usize = 0;
            let ghost mid = g@;
            while k < rvals.len()
                invariant
                    k <= rvals@.len(),
                    g@ == mid + rvals@.take(k as int),
                decreases rvals@.len() - k,
            {
                g.push(rvals[k]);
                proof {
                    assert(mid + rvals@.take(k + 1 as int) =~= (mid + rvals@.take(k as int)).push(
                        rvals@[k as int],
                    ));
                }
                k = k + 1;
            }
            proof {
                assert(rvals@.take(rvals@.len() as int) =~= rvals@);
                assert(g@ =~= v6_groups(s@));
            }
            groups = g;
        }
    }
    proof {
        assert(groups@ =~= v6_groups(s@));
    }
    Some(
        Ip::V6(
            groups[0],
            groups[1],
            groups[2],
            groups[3],
            groups[4],
            groups[5],
            groups[6],
            groups[7],
        ),
    )
}

/// What one line of the list yields.
pub enum ParsedLine {
    /// A blank or comment line, carrying no entry.
    Skip,
    /// A well-formed entry.
    Proxy(Endpoint),
    /// A malformed line; the whole load fails.
    Bad,
}

/// Parses one line of the proxy list.
pub fn parse_line(s: &Vec<u8>) -> (r: ParsedLine)
    ensures
        match r {
            ParsedLine::Skip => skippable(s@),
            ParsedLine::Proxy(e) => !skippable(s@) && line_endpoint(s@) == Some(e),
            ParsedLine::Bad => !skippable(s@) && line_endpoint(s@) is None,
        },
{
    if s.len() == 0 {
        return ParsedLine::Skip;
    }
    if s[0] == 35 {
        return ParsedLine::Skip;
    }
    if s[0] == 91 {
        let parts = split_exec(s, 93);
        proof {
            lemma_deep_view_vec(&parts);
        }
        if parts.len() != 2 {
            return ParsedLine::Bad;
        }
        if parts[1].len() < 1 {
            return ParsedLine::Bad;
        }
        if parts[1][0] != 58 {
            return ParsedLine::Bad;
        }
        proof {
            assert(s@[0] != 93);
            lemma_split_first_nonempty(s@, 93);
            assert(parts@[0]@ == split_bytes(s@, 93)[0]);
            assert(parts@[0]@.len() >= 1);
        }
        let inner = byte_range(&parts[0], 1, parts[0].len());
        let port_text = byte_range(&parts[1], 1, parts[1].len());
        proof {
            assert(inner@ =~= parts.deep_view()[0].skip(1));
            assert(port_text@ =~= parts.deep_view()[1].skip(1));
        }
        let ip = match parse_v6_text(&inner) {
            Some(ip) => ip,
            None => {
                return ParsedLine::Bad;
            }
        };
        let port = match parse_port(&port_text) {
            Some(p) => p,
            None => {
                return ParsedLine::Bad;
            }
        };
        ParsedLine::Proxy(Endpoint { ip, port })
    } else {
        let parts = split_exec(s, 58);
        proof {
            lemma_deep_view_vec(&parts);
        }
        if parts.len() != 2 {
            return ParsedLine::Bad;
        }
        let ip = match parse_v4_text(&parts[0]) {
            Some(ip) => ip,
            None => {
                return ParsedLine::Bad;
            }
        };
        let port = match parse_port(&parts[1]) {
            Some(p) => p,
            None => {
                return ParsedLine::Bad;
            }
        };
        ParsedLine::Proxy(Endpoint { ip, port })
    }
}

/// A split's first token is nonempty when the string does not begin
/// with the separator.
proof fn lemma_split_first_nonempty(s: Seq<u8>, c: u8)
    requires
        s.len() > 0,
        s[0] != c,
    ensures
        split_bytes(s, c).len() >= 1,
        split_bytes(s, c)[0].len() >= 1,
        split_bytes(s, c)[0][0] == s[0],
{
    lemma_split_acc_first(s, c, Seq::empty());
}

/// Within `split_acc`, the first token extends the accumulator, and with
/// the head byte where the string does not open on the separator.
proof fn lemma_split_acc_first(s: Seq<u8>, c: u8, cur: Seq<u8>)
    ensures
        split_acc(s, c, cur).len() >= 1,
        split_acc(s, c, cur)[0].len() >= cur.len(),
        forall|i: int| 0 <= i < cur.len() ==> #[trigger] split_acc(s, c, cur)[0][i] == cur[i],
        s.len() > 0 && s[0] != c ==> split_acc(s, c, cur)[0].len() >= cur.len() + 1 && split_acc(
            s,
            c,
            cur,
        )[0][cur.len() as int] == s[0],
    decreases s.len(),
{
    if s.len() == 0 {
    } else if s[0] == c {
    } else {
        lemma_split_acc_first(s.skip(1), c, cur.push(s[0]));
    }
}

/// Loads a whole proxy list from its lines (without terminators).
///
/// Succeeds exactly when every line is blank, a comment, or a
/// well-formed entry, yielding the entries in file order; otherwise
/// reports the first offending line and returns no partial list.
pub fn load_from_lines(lines: &Vec<Vec<u8>>) -> (r: Result<Vec<Endpoint>, LoadError>)
    ensures
        match r {
            Ok(eps) => (forall|i: int|
                0 <= i < lines@.len() ==> line_ok(#[trigger] lines.deep_view()[i])) && eps@
                == spec_endpoints(lines.deep_view()),
            Err(e) => match e {
                LoadError::InvalidLine(i) => i < lines@.len() && !line_ok(
                    lines.deep_view()[i as int],
                ) && forall|j: int| 0 <= j < i ==> line_ok(#[trigger] lines.deep_view()[j]),
            },
        },
{
    proof {
        lemma_deep_view_vec(lines);
    }
    let ghost dv = lines.deep_view();
    let mut eps: Vec<Endpoint> = Vec::new();
    let mut i: usize = 0;
    while i < lines.len()
        invariant
            i <= lines@.len(),
            dv == lines.deep_view(),
            dv.len() == lines@.len(),
            forall|j: int| 0 <= j < lines@.len() ==> #[trigger] dv[j] == lines@[j]@,
            forall|j: int| 0 <= j < i ==> line_ok(#[trigger] dv[j]),
            eps@ == spec_endpoints(dv.take(i as int)),
        decreases lines@.len() - i,
    {
        proof {
            assert(dv.take(i + 1 as int).drop_last() =~= dv.take(i as int));
            assert(dv.take(i + 1 as int).last() == dv[i as int]);
        }
        match parse_line(&lines[i]) {
            ParsedLine::Skip => {}
            ParsedLine::Proxy(e) => {
                eps.push(e);
            }
            ParsedLine::Bad => {
                return Err(LoadError::InvalidLine(i));
            }
        }
        i = i + 1;
    }
    proof {
        assert(dv.take(dv.len() as int) =~= dv);
    }
    Ok(eps)
}

} // verus!
