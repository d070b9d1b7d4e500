//! IPv4, IPv6 and socket addresses, with their textual forms.

use vstd::prelude::*;
use vstd::slice::slice_subrange;

use crate::number::{at_most, decimal, numeral, push_decimal, read_numeral};
use crate::text::{
    first_index, first_pair, index_of, index_of_pair, lemma_first_index, split, split_on, views,
};
use crate::wire::{be_bytes, be_value, lemma_be_bytes_len, lemma_bytes_of_value, u128_bytes};

verus! {

/// An IPv4 address, as the number that its four octets write in big-endian
/// order.
#[derive(Debug, Clone, Copy, PartialEq, Eq, Hash, Structural)]
pub struct Ipv4Addr {
    pub bits: u32,
}

/// An IPv6 address, as the number that its sixteen octets write in big-endian
/// order.
#[derive(Debug, Clone, Copy, PartialEq, Eq, Hash, Structural)]
pub struct Ipv6Addr {
    pub bits: u128,
}

#[derive(Debug, Clone, Copy, PartialEq, Eq, Hash, Structural)]
pub enum IpAddr {
    V4(Ipv4Addr),
    V6(Ipv6Addr),
}

/// An address and a port. Flow information and scope are zero for IPv4.
#[derive(Debug, Clone, Copy, PartialEq, Eq, Hash, Structural)]
pub struct SocketAddr {
    pub ip: IpAddr,
    pub port: u16,
    pub flowinfo: u32,
    pub scope_id: u32,
}

// ---------------------------------------------------------------------------
// IPv4
// ---------------------------------------------------------------------------

/// The number written by four octets.
pub open spec fn octets_bits(a: u8, b: u8, c: u8, d: u8) -> u32 {
    (a * 0x100_0000 + b * 0x1_0000 + c * 0x100 + d) as u32
}

impl Ipv4Addr {
    /// The four octets, most significant first.
    pub open spec fn spec_octets(self) -> Seq<u8> {
        be_bytes(self.bits as nat, 4)
    }

    pub fn new(a: u8, b: u8, c: u8, d: u8) -> (r: Ipv4Addr)
        ensures
            r.bits == octets_bits(a, b, c, d),
            r.spec_octets() == seq![a, b, c, d],
    {
        let bits = (a as u32) * 0x100_0000 + (b as u32) * 0x1_0000 + (c as u32) * 0x100 + d as u32;
        proof {
            let s = seq![a, b, c, d];
            reveal_with_fuel(be_value, 5);
            assert(be_value(s) == bits);
            lemma_bytes_of_value(s);
        }
        Ipv4Addr { bits }
    }

    pub fn from_bits(bits: u32) -> (r: Ipv4Addr)
        ensures
            r.bits == bits,
    {
        Ipv4Addr { bits }
    }

    pub fn to_bits(&self) -> (r: u32)
        ensures
            r == self.bits,
    {
        self.bits
    }

    pub fn octets(&self) -> (r: [u8; 4])
        ensures
            r@ == self.spec_octets(),
    {
        let v = self.bits;
        proof {
            reveal_with_fuel(be_bytes, 5);
        }
        let r: [u8; 4] = [
            (v / 0x100_0000) as u8,
            ((v / 0x1_0000) % 0x100) as u8,
            ((v / 0x100) % 0x100) as u8,
            (v % 0x100) as u8,
        ];
        assert(r@ =~= self.spec_octets());
        r
    }

    /// `0.0.0.0`.
    pub fn unspecified() -> (r: Ipv4Addr)
        ensures
            r.bits == 0,
    {
        Ipv4Addr { bits: 0 }
    }

    pub fn is_unspecified(&self) -> (r: bool)
        ensures
            r == (self.bits == 0),
    {
        self.bits == 0
    }

    /// The limited broadcast address `255.255.255.255`.
    pub fn broadcast() -> (r: Ipv4Addr)
        ensures
            r.bits == 0xffff_ffff,
    {
        Ipv4Addr { bits: 0xffff_ffff }
    }

    /// The dotted-decimal form.
    pub fn to_text(&self) -> (r: String)
        ensures
            r@ == ipv4_text(*self),
    {
        let o = self.octets();
        proof {
            lemma_be_bytes_len(self.bits as nat, 4);
        }
        let mut r = String::new();
        push_decimal(&mut r, o[0] as u64);
        r.push('.');
        push_decimal(&mut r, o[1] as u64);
        r.push('.');
        push_decimal(&mut r, o[2] as u64);
        r.push('.');
        push_decimal(&mut r, o[3] as u64);
        assert(r@ =~= ipv4_text(*self));
        r
    }

    /// Reads the dotted-decimal form.
    pub fn parse(s: &[char]) -> (r: Option<Ipv4Addr>)
        ensures
            r == ipv4_of(s@),
    {
        let pieces = split(s, '.');
        let ghost texts = split_on(s@, '.');
        assert(texts == views(pieces@));
        if pieces.len() != 4 {
            return None;
        }
        assert(texts[0] == pieces@[0]@);
        assert(texts[1] == pieces@[1]@);
        assert(texts[2] == pieces@[2]@);
        assert(texts[3] == pieces@[3]@);
        let a = match read_octet(pieces[0].as_slice()) {
            Some(v) => v,
            None => return None,
        };
        let b = match read_octet(pieces[1].as_slice()) {
            Some(v) => v,
            None => return None,
        };
        let c = match read_octet(pieces[2].as_slice()) {
            Some(v) => v,
            None => return None,
        };
        let d = match read_octet(pieces[3].as_slice()) {
            Some(v) => v,
            None => return None,
        };
        Some(Ipv4Addr::new(a, b, c, d))
    }
}

/// The dotted-decimal text of an address.
pub open spec fn ipv4_text(a: Ipv4Addr) -> Seq<char> {
    let o = a.spec_octets();
    decimal(o[0] as nat) + seq!['.'] + decimal(o[1] as nat) + seq!['.'] + decimal(o[2] as nat)
        + seq!['.'] + decimal(o[3] as nat)
}

/// One octet of a dotted-decimal address: up to three digits, no zero in
/// front of another digit, at most 255.
pub open spec fn octet_of(s: Seq<char>) -> Option<u8> {
    if s.len() > 3 || (s.len() > 1 && s[0] == '0') {
        None
    } else {
        match at_most(numeral(s, 10), 255) {
            Some(v) => Some(v as u8),
            None => None,
        }
    }
}

fn read_octet(s: &[char]) -> (r: Option<u8>)
    ensures
        r == octet_of(s@),
{
    if s.len() > 3 || (s.len() > 1 && s[0] == '0') {
        return None;
    }
    match read_numeral(s, 10, 255) {
        Some(v) => Some(v as u8),
        None => None,
    }
}

/// The IPv4 address that `s` spells: four octets separated by dots.
pub open spec fn ipv4_of(s: Seq<char>) -> Option<Ipv4Addr> {
    let p = split_on(s, '.');
    if p.len() != 4 {
        None
    } else {
        match (octet_of(p[0]), octet_of(p[1]), octet_of(p[2]), octet_of(p[3])) {
            (Some(a), Some(b), Some(c), Some(d)) => Some(
                Ipv4Addr { bits: octets_bits(a, b, c, d) },
            ),
            _ => None,
        }
    }
}

// ---------------------------------------------------------------------------
// IPv6
// ---------------------------------------------------------------------------

/// The number written by 16-bit groups, most significant first.
pub open spec fn groups_value(g: Seq<u16>) -> nat
    decreases g.len(),
{
    if g.len() == 0 {
        0
    } else {
        groups_value(g.drop_last()) * 0x1_0000 + g.last() as nat
    }
}

proof fn lemma_groups_bound(g: Seq<u16>)
    requires
        g.len() <= 8,
    ensures
        groups_value(g) <= u128::MAX,
        g.len() < 8 ==> groups_value(g) < 0x1_0000_0000_0000_0000_0000_0000_0000,
{
    reveal_with_fuel(groups_value, 9);
}

impl Ipv6Addr {
    pub open spec fn spec_octets(self) -> Seq<u8> {
        be_bytes(self.bits as nat, 16)
    }

    pub fn from_bits(bits: u128) -> (r: Ipv6Addr)
        ensures
            r.bits == bits,
    {
        Ipv6Addr { bits }
    }

    pub fn to_bits(&self) -> (r: u128)
        ensures
            r == self.bits,
    {
        self.bits
    }

    pub fn octets(&self) -> (r: [u8; 16])
        ensures
            r@ == self.spec_octets(),
    {
        u128_bytes(self.bits)
    }

    pub fn is_unspecified(&self) -> (r: bool)
        ensures
            r == (self.bits == 0),
    {
        self.bits == 0
    }

    /// The address with the groups `a:b:c:d:e:f:g:h`.
    pub fn new(a: u16, b: u16, c: u16, d: u16, e: u16, f: u16, g: u16, h: u16) -> (r: Ipv6Addr)
        ensures
            r.bits as nat == groups_value(seq![a, b, c, d, e, f, g, h]),
    {
        let v: [u16; 8] = [a, b, c, d, e, f, g, h];
        assert(v@ =~= seq![a, b, c, d, e, f, g, h]);
        Ipv6Addr::of_groups(v.as_slice())
    }

    fn of_groups(g: &[u16]) -> (r: Ipv6Addr)
        requires
            g@.len() == 8,
        ensures
            r.bits as nat == groups_value(g@),
    {
        let mut bits: u128 = 0;
        let mut i: usize = 0;
        while i < 8
            invariant
                i <= 8,
                g@.len() == 8,
                bits as nat == groups_value(g@.take(i as int)),
            decreases 8 - i,
        {
            proof {
                assert(g@.take(i + 1).drop_last() =~= g@.take(i as int));
                lemma_groups_bound(g@.take(i as int));
                lemma_groups_bound(g@.take(i + 1));
            }
            bits = bits * 0x1_0000 + g[i] as u128;
            i = i + 1;
        }
        assert(g@.take(8) =~= g@);
        Ipv6Addr { bits }
    }

    /// Reads the textual form, with or without `::` and with or without a
    /// trailing dotted-decimal part.
    pub fn parse(s: &[char]) -> (r: Option<Ipv6Addr>)
        ensures
            r == ipv6_of(s@),
    {
        match index_of_pair(s, ':', ':') {
            Some(p) => {
                let n = s.len();
                let before = slice_subrange(s, 0, p);
                let after = slice_subrange(s, p + 2, n);
                assert(before@ =~= s@.take(p as int));
                assert(after@ =~= s@.skip(p + 2));
                let (head, dotted) = match read_groups(before) {
                    Some(x) => x,
                    None => return None,
                };
                let (tail, _) = match read_groups(after) {
                    Some(x) => x,
                    None => return None,
                };
                if dotted || head.len() > 7 || tail.len() > 7 - head.len() {
                    return None;
                }
                let mut all: Vec<u16> = Vec::new();
                let ghost gap = Seq::new((8 - head@.len() - tail@.len()) as nat, |i: int| 0u16);
                let mut i: usize = 0;
                while i < 8
                    invariant
                        i <= 8,
                        head@.len() + tail@.len() <= 7,
                        gap == Seq::new((8 - head@.len() - tail@.len()) as nat, |i: int| 0u16),
                        all@ == (head@ + gap + tail@).take(i as int),
                    decreases 8 - i,
                {
                    if i < head.len() {
                        all.push(head[i]);
                    } else if i < 8 - tail.len() {
                        all.push(0);
                    } else {
                        all.push(tail[i - (8 - tail.len())]);
                    }
                    i = i + 1;
                    assert(all@ =~= (head@ + gap + tail@).take(i as int));
                }
                assert(all@ =~= head@ + gap + tail@);
                let r = Ipv6Addr::of_groups(all.as_slice());
                Some(r)
            },
            None => {
                let (groups, _) = match read_groups(s) {
                    Some(x) => x,
                    None => return None,
                };
                if groups.len() != 8 {
                    return None;
                }
                let r = Ipv6Addr::of_groups(groups.as_slice());
                Some(r)
            },
        }
    }
}

/// One group of an IPv6 address: one to four hexadecimal digits.
pub open spec fn group_of(s: Seq<char>) -> Option<u16> {
    if s.len() > 4 {
        None
    } else {
        match at_most(numeral(s, 16), 0xffff) {
            Some(v) => Some(v as u16),
            None => None,
        }
    }
}

fn read_group(s: &[char]) -> (r: Option<u16>)
    ensures
        r == group_of(s@),
{
    if s.len() > 4 {
        return None;
    }
    match read_numeral(s, 16, 0xffff) {
        Some(v) => Some(v as u16),
        None => None,
    }
}

/// The groups that `pieces` spell, every piece being one group.
pub open spec fn plain_groups(pieces: Seq<Seq<char>>) -> Option<Seq<u16>>
    decreases pieces.len(),
{
    if pieces.len() == 0 {
        Some(Seq::empty())
    } else {
        match (plain_groups(pieces.drop_last()), group_of(pieces.last())) {
            (Some(g), Some(x)) => Some(g.push(x)),
            _ => None,
        }
    }
}

/// The groups of one side of an IPv6 address, and whether they end in a
/// dotted-decimal IPv4 address, which counts for two groups. An empty side
/// has no groups.
pub open spec fn side_groups(s: Seq<char>) -> Option<(Seq<u16>, bool)> {
    if s.len() == 0 {
        Some((Seq::empty(), false))
    } else {
        let pieces = split_on(s, ':');
        match plain_groups(pieces.drop_last()) {
            None => None,
            Some(g) => match (group_of(pieces.last()), ipv4_of(pieces.last())) {
                (Some(x), _) => Some((g.push(x), false)),
                (None, Some(a)) => Some(
                    (g.push((a.bits / 0x1_0000) as u16).push((a.bits % 0x1_0000) as u16), true),
                ),
                (None, None) => None,
            },
        }
    }
}

/// The IPv6 address that `s` spells: eight groups, or fewer around one `::`
/// that stands for at least one group of zeros.
pub open spec fn ipv6_of(s: Seq<char>) -> Option<Ipv6Addr> {
    match first_pair(s, ':', ':') {
        Some(p) => match (side_groups(s.take(p)), side_groups(s.skip(p + 2))) {
            (Some((head, dotted)), Some((tail, _))) => if dotted || head.len() + tail.len() > 7 {
                None
            } else {
                let gap = Seq::new((8 - head.len() - tail.len()) as nat, |i: int| 0u16);
                Some(Ipv6Addr { bits: groups_value(head + gap + tail) as u128 })
            },
            _ => None,
        },
        None => match side_groups(s) {
            Some((g, _)) => if g.len() == 8 {
                Some(Ipv6Addr { bits: groups_value(g) as u128 })
            } else {
                None
            },
            None => None,
        },
    }
}

proof fn lemma_plain_groups_prefix(pieces: Seq<Seq<char>>, i: int)
    requires
        0 <= i <= pieces.len(),
        plain_groups(pieces.take(i)) is None,
    ensures
        plain_groups(pieces) is None,
    decreases pieces.len() - i,
{
    if i < pieces.len() {
        assert(pieces.take(i + 1).drop_last() =~= pieces.take(i));
        lemma_plain_groups_prefix(pieces, i + 1);
    } else {
        assert(pieces.take(i) =~= pieces);
    }
}

fn read_groups(s: &[char]) -> (r: Option<(Vec<u16>, bool)>)
    ensures
        match r {
            Some((g, dotted)) => side_groups(s@) == Some((g@, dotted)),
            None => side_groups(s@) is None,
        },
{
    let mut g: Vec<u16> = Vec::new();
    if s.len() == 0 {
        return Some((g, false));
    }
    let pieces = split(s, ':');
    let ghost texts = split_on(s@, ':');
    let n = pieces.len() - 1;
    let mut i: usize = 0;
    assert(texts.drop_last().take(0) =~= Seq::<Seq<char>>::empty());
    while i < n
        invariant
            i <= n,
            n + 1 == pieces@.len(),
            texts == views(pieces@),
            texts == split_on(s@, ':'),
            s@.len() > 0,
            plain_groups(texts.drop_last().take(i as int)) == Some(g@),
        decreases n - i,
    {
        assert(texts[i as int] == pieces@[i as int]@);
        assert(texts.drop_last().take(i + 1).drop_last() =~= texts.drop_last().take(i as int));
        match read_group(pieces[i].as_slice()) {
            Some(x) => {
                g.push(x);
            },
            None => {
                proof {
                    lemma_plain_groups_prefix(texts.drop_last(), i + 1);
                }
                return None;
            },
        }
        i = i + 1;
    }
    assert(texts.drop_last().take(n as int) =~= texts.drop_last());
    assert(texts.last() == pieces@[n as int]@);
    match read_group(pieces[n].as_slice()) {
        Some(x) => {
            g.push(x);
            Some((g, false))
        },
        None => match Ipv4Addr::parse(pieces[n].as_slice()) {
            Some(a) => {
                g.push((a.bits / 0x1_0000) as u16);
                g.push((a.bits % 0x1_0000) as u16);
                Some((g, true))
            },
            None => None,
        },
    }
}

// ---------------------------------------------------------------------------
// Socket addresses
// ---------------------------------------------------------------------------

impl IpAddr {
    pub open spec fn spec_unspecified(self) -> bool {
        match self {
            IpAddr::V4(a) => a.bits == 0,
            IpAddr::V6(a) => a.bits == 0,
        }
    }

    pub fn is_unspecified(&self) -> (r: bool)
        ensures
            r == self.spec_unspecified(),
    {
        match self {
            IpAddr::V4(a) => a.is_unspecified(),
            IpAddr::V6(a) => a.is_unspecified(),
        }
    }
}

/// The IPv4 socket address `ip:port`.
pub open spec fn socket_v4(ip: Ipv4Addr, port: u16) -> SocketAddr {
    SocketAddr { ip: IpAddr::V4(ip), port, flowinfo: 0, scope_id: 0 }
}

/// The IPv6 socket address `[ip%scope]:port`.
pub open spec fn socket_v6(ip: Ipv6Addr, port: u16, scope_id: u32) -> SocketAddr {
    SocketAddr { ip: IpAddr::V6(ip), port, flowinfo: 0, scope_id }
}

/// `ip:port`, or nothing where one of the two parts is missing.
pub open spec fn socket_v4_of(s: Seq<char>) -> Option<SocketAddr> {
    match first_index(s, ':') {
        Some(p) => match (ipv4_of(s.take(p)), at_most(numeral(s.skip(p + 1), 10), 0xffff)) {
            (Some(ip), Some(port)) => Some(socket_v4(ip, port as u16)),
            _ => None,
        },
        None => None,
    }
}

/// The host part of an IPv6 socket address: an address, and a scope number
/// after `%` where there is one.
pub open spec fn scoped_host_of(s: Seq<char>) -> Option<(Ipv6Addr, u32)> {
    match first_index(s, '%') {
        Some(p) => match (ipv6_of(s.take(p)), at_most(numeral(s.skip(p + 1), 10), 0xffff_ffff)) {
            (Some(ip), Some(scope)) => Some((ip, scope as u32)),
            _ => None,
        },
        None => match ipv6_of(s) {
            Some(ip) => Some((ip, 0)),
            None => None,
        },
    }
}

/// `[host]:port`.
pub open spec fn socket_v6_of(s: Seq<char>) -> Option<SocketAddr> {
    if s.len() == 0 || s[0] != '[' {
        None
    } else {
        match first_index(s, ']') {
            Some(q) => if q + 1 < s.len() && s[q + 1] == ':' {
                match (
                    scoped_host_of(s.subrange(1, q)),
                    at_most(numeral(s.skip(q + 2), 10), 0xffff),
                ) {
                    (Some((ip, scope)), Some(port)) => Some(socket_v6(ip, port as u16, scope)),
                    _ => None,
                }
            } else {
                None
            },
            None => None,
        }
    }
}

/// The socket address that `s` spells.
pub open spec fn socket_of(s: Seq<char>) -> Option<SocketAddr> {
    match socket_v4_of(s) {
        Some(a) => Some(a),
        None => socket_v6_of(s),
    }
}

fn read_socket_v4(s: &[char]) -> (r: Option<SocketAddr>)
    ensures
        r == socket_v4_of(s@),
{
    let p = match index_of(s, ':') {
        Some(p) => p,
        None => return None,
    };
    let end = s.len();
    let host = slice_subrange(s, 0, p);
    let port = slice_subrange(s, p + 1, end);
    assert(host@ =~= s@.take(p as int));
    assert(port@ =~= s@.skip(p + 1));
    match (Ipv4Addr::parse(host), read_numeral(port, 10, 0xffff)) {
        (Some(ip), Some(n)) => Some(
            SocketAddr { ip: IpAddr::V4(ip), port: n as u16, flowinfo: 0, scope_id: 0 },
        ),
        _ => None,
    }
}

fn read_scoped_host(s: &[char]) -> (r: Option<(Ipv6Addr, u32)>)
    ensures
        r == scoped_host_of(s@),
{
    match index_of(s, '%') {
        Some(p) => {
            let end = s.len();
            let host = slice_subrange(s, 0, p);
            let scope = slice_subrange(s, p + 1, end);
            assert(host@ =~= s@.take(p as int));
            assert(scope@ =~= s@.skip(p + 1));
            match (Ipv6Addr::parse(host), read_numeral(scope, 10, 0xffff_ffff)) {
                (Some(ip), Some(n)) => Some((ip, n as u32)),
                _ => None,
            }
        },
        None => match Ipv6Addr::parse(s) {
            Some(ip) => Some((ip, 0)),
            None => None,
        },
    }
}

fn read_socket_v6(s: &[char]) -> (r: Option<SocketAddr>)
    ensures
        r == socket_v6_of(s@),
{
    if s.len() == 0 || s[0] != '[' {
        return None;
    }
    let q = match index_of(s, ']') {
        Some(q) => q,
        None => return None,
    };
    proof {
        lemma_first_index(s@, ']');
    }
    if q + 1 < s.len() && s[q + 1] == ':' {
        let host = slice_subrange(s, 1, q);
        let port = slice_subrange(s, q + 2, s.len());
        assert(host@ =~= s@.subrange(1, q as int));
        assert(port@ =~= s@.skip(q + 2));
        match (read_scoped_host(host), read_numeral(port, 10, 0xffff)) {
            (Some((ip, scope)), Some(n)) => Some(
                SocketAddr { ip: IpAddr::V6(ip), port: n as u16, flowinfo: 0, scope_id: scope },
            ),
            _ => None,
        }
    } else {
        None
    }
}

impl SocketAddr {
    pub fn v4(ip: Ipv4Addr, port: u16) -> (r: SocketAddr)
        ensures
            r == socket_v4(ip, port),
    {
        SocketAddr { ip: IpAddr::V4(ip), port, flowinfo: 0, scope_id: 0 }
    }

    pub fn v6(ip: Ipv6Addr, port: u16) -> (r: SocketAddr)
        ensures
            r == socket_v6(ip, port, 0),
    {
        SocketAddr { ip: IpAddr::V6(ip), port, flowinfo: 0, scope_id: 0 }
    }

    /// Reads `1.2.3.4:67` or `[::1]:547`.
    pub fn parse(s: &[char]) -> (r: Option<SocketAddr>)
        ensures
            r == socket_of(s@),
    {
        match read_socket_v4(s) {
            Some(a) => Some(a),
            None => read_socket_v6(s),
        }
    }
}

} // verus!
