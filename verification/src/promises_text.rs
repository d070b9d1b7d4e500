//! What reading and writing text promises: what was written is read back, and
//! nothing is lost where text is taken apart.

use vstd::prelude::*;
use vstd::utf8::*;

use crate::calendar::{
    date_text, day_number, is_iso_text, iso_text_unique, time_text, valid_date,
};
use crate::config::{duid_of, line_of, without_comment, DuidError, LineView};
use crate::monitor::{hex_pairs, monitor_text};
use crate::net::{
    group_of, groups_value, ipv4_of, ipv4_text, ipv6_of, octet_of, octets_bits, plain_groups,
    scoped_host_of, side_groups, socket_of, socket_v4, socket_v4_of, socket_v6, Ipv4Addr, Ipv6Addr,
};
use crate::number::{
    at_most, decimal, decimal_padded, digit_char, digit_in, digits_value, hex_char, hex_pair,
    numeral, signed_numeral,
};
use crate::service4::{hex_octets, lease_line_of, LeaseLineView};
use crate::service6::lease6_line_of;
use crate::text::{
    first_index, first_pair, is_whitespace, lemma_first_index, lemma_split_some, split_on, trim,
    trim_end, trim_start,
};
use crate::wire::{
    be_value, lemma_be_bytes_len, lemma_byte_ranges, lemma_bytes_of_value, lemma_value_of_bytes,
};

verus! {

// ---------------------------------------------------------------------------
// Taking text apart
// ---------------------------------------------------------------------------

/// The pieces one after the other, with `sep` between them.
pub open spec fn joined(pieces: Seq<Seq<char>>, sep: char) -> Seq<char>
    decreases pieces.len(),
{
    if pieces.len() == 0 {
        Seq::empty()
    } else if pieces.len() == 1 {
        pieces[0]
    } else {
        joined(pieces.drop_last(), sep) + seq![sep] + pieces.last()
    }
}

/// The pieces between separators, joined again, are the text; none of them
/// holds the separator.
pub proof fn split_loses_nothing(s: Seq<char>, sep: char)
    ensures
        split_on(s, sep).len() > 0,
        joined(split_on(s, sep), sep) == s,
        forall|i: int, j: int|
            0 <= i < split_on(s, sep).len() && 0 <= j < split_on(s, sep)[i].len()
                ==> #[trigger] split_on(s, sep)[i][j] != sep,
    decreases s.len(),
{
    let p = split_on(s, sep);
    if s.len() > 0 {
        let front = split_on(s.drop_last(), sep);
        split_loses_nothing(s.drop_last(), sep);
        if s.last() == sep {
            assert(p.drop_last() =~= front);
            assert(joined(p, sep) =~= s);
        } else {
            let last = front.last();
            assert(p.drop_last() =~= front.drop_last());
            assert(p.last() == last.push(s.last()));
            assert(joined(p, sep) =~= joined(front, sep).push(s.last()));
            assert(joined(p, sep) =~= s);
            assert forall|i: int, j: int| 0 <= i < p.len() && 0 <= j < p[i].len() implies
            #[trigger] p[i][j] != sep by {
                if i < p.len() - 1 {
                    assert(p[i] == front[i]);
                } else if j < last.len() {
                    assert(front[front.len() - 1][j] != sep);
                    assert(p[i][j] == last[j]);
                }
            }
        }
    }
}

proof fn lemma_split_extended(s: Seq<char>, t: Seq<char>, sep: char)
    requires
        !t.contains(sep),
    ensures
        split_on(s + t, sep) == split_on(s, sep).drop_last().push(split_on(s, sep).last() + t),
    decreases t.len(),
{
    let p = split_on(s, sep);
    lemma_split_some(s, sep);
    if t.len() == 0 {
        assert(s + t =~= s);
        assert(p.last() + t =~= p.last());
        assert(p.drop_last().push(p.last()) =~= p);
    } else {
        let front = t.drop_last();
        assert forall|c: char| front.contains(c) implies t.contains(c) by {
            let i = choose|i: int| 0 <= i < front.len() && front[i] == c;
            assert(t[i] == c);
        }
        lemma_split_extended(s, front, sep);
        assert((s + t).drop_last() =~= s + front);
        assert(t[t.len() - 1] != sep);
        assert((s + t).last() == t.last());
        assert(p.last() + t =~= (p.last() + front).push(t.last()));
        assert(split_on(s + front, sep).drop_last() =~= p.drop_last());
    }
}

proof fn lemma_split_appended(s: Seq<char>, t: Seq<char>, sep: char)
    requires
        !t.contains(sep),
    ensures
        split_on(s + seq![sep] + t, sep) == split_on(s, sep).push(t),
{
    let u = s + seq![sep];
    assert(u.drop_last() =~= s);
    lemma_split_extended(u, t, sep);
    assert(split_on(u, sep) == split_on(s, sep).push(Seq::empty()));
    assert(split_on(u, sep).drop_last() =~= split_on(s, sep));
    assert(Seq::<char>::empty() + t =~= t);
}

/// Pieces without the separator that are joined by it come apart again.
pub proof fn joined_pieces_come_apart(pieces: Seq<Seq<char>>, sep: char)
    requires
        pieces.len() > 0,
        forall|i: int| 0 <= i < pieces.len() ==> !(#[trigger] pieces[i]).contains(sep),
    ensures
        split_on(joined(pieces, sep), sep) == pieces,
    decreases pieces.len(),
{
    if pieces.len() == 1 {
        let t = pieces[0];
        lemma_split_extended(Seq::empty(), t, sep);
        assert(Seq::<char>::empty() + t =~= t);
        assert(split_on(t, sep) =~= pieces);
    } else {
        let front = pieces.drop_last();
        assert(forall|i: int| 0 <= i < front.len() ==> #[trigger] front[i] == pieces[i]);
        joined_pieces_come_apart(front, sep);
        assert(!pieces[pieces.len() - 1].contains(sep));
        lemma_split_appended(joined(front, sep), pieces.last(), sep);
        assert(front.push(pieces.last()) =~= pieces);
    }
}

/// White space is what Unicode counts as such.
pub proof fn white_space(c: char)
    ensures
        is_whitespace(c) <==> c == '\t' || c == '\n' || c == '\u{b}' || c == '\u{c}' || c == '\r'
            || c == ' ' || c == '\u{85}' || c == '\u{a0}' || c == '\u{1680}' || ('\u{2000}' <= c
            <= '\u{200a}') || c == '\u{2028}' || c == '\u{2029}' || c == '\u{202f}' || c
            == '\u{205f}' || c == '\u{3000}',
{
}

/// Whether all of `s` is white space.
pub open spec fn blank(s: Seq<char>) -> bool {
    forall|i: int| 0 <= i < s.len() ==> is_whitespace(#[trigger] s[i])
}

proof fn lemma_trim_start(s: Seq<char>) -> (a: Seq<char>)
    ensures
        s == a + trim_start(s),
        blank(a),
        trim_start(s).len() > 0 ==> !is_whitespace(trim_start(s)[0]),
    decreases s.len(),
{
    if s.len() > 0 && is_whitespace(s.first()) {
        let b = lemma_trim_start(s.drop_first());
        let a = seq![s.first()] + b;
        assert(s =~= seq![s.first()] + s.drop_first());
        assert(s =~= a + trim_start(s));
        assert forall|i: int| 0 <= i < a.len() implies is_whitespace(#[trigger] a[i]) by {
            if i > 0 {
                assert(a[i] == b[i - 1]);
            }
        }
        a
    } else {
        assert(s =~= Seq::empty() + s);
        Seq::empty()
    }
}

proof fn lemma_trim_end(s: Seq<char>) -> (b: Seq<char>)
    ensures
        s == trim_end(s) + b,
        blank(b),
        trim_end(s).len() > 0 ==> !is_whitespace(trim_end(s).last()),
    decreases s.len(),
{
    if s.len() > 0 && is_whitespace(s.last()) {
        let a = lemma_trim_end(s.drop_last());
        let b = a.push(s.last());
        assert(s =~= s.drop_last().push(s.last()));
        assert(s =~= trim_end(s) + b);
        assert forall|i: int| 0 <= i < b.len() implies is_whitespace(#[trigger] b[i]) by {
            if i < a.len() {
                assert(b[i] == a[i]);
            }
        }
        b
    } else {
        assert(s =~= s + Seq::empty());
        Seq::empty()
    }
}

/// Trimming takes off white space at both ends, and all of it: what is left
/// neither starts nor ends with white space.
pub proof fn trim_takes_off_white_space(s: Seq<char>) -> (ends: (Seq<char>, Seq<char>))
    ensures
        s == ends.0 + trim(s) + ends.1,
        blank(ends.0),
        blank(ends.1),
        trim(s).len() > 0 ==> !is_whitespace(trim(s)[0]) && !is_whitespace(trim(s).last()),
{
    let a = lemma_trim_start(s);
    let b = lemma_trim_end(trim_start(s));
    assert(s =~= a + trim(s) + b);
    if trim(s).len() > 0 {
        assert(trim_start(s)[0] == trim(s)[0]);
    }
    (a, b)
}

/// A text that neither starts nor ends with white space is left as it is.
pub proof fn trim_leaves_the_rest(s: Seq<char>)
    requires
        s.len() > 0 ==> !is_whitespace(s[0]) && !is_whitespace(s.last()),
    ensures
        trim(s) == s,
{
}

// ---------------------------------------------------------------------------
// Numbers
// ---------------------------------------------------------------------------

proof fn lemma_decimal_digits(n: nat)
    ensures
        digits_value(decimal(n), 10) == Some(n),
        decimal(n).len() > 0,
        forall|i: int|
            0 <= i < decimal(n).len() ==> '0' <= #[trigger] decimal(n)[i] <= '9',
        decimal(n)[0] == '0' ==> n == 0,
        n < 10 ==> decimal(n).len() == 1,
        10 <= n < 100 ==> decimal(n).len() == 2,
        100 <= n < 1000 ==> decimal(n).len() == 3,
    decreases n,
{
    let s = decimal(n);
    reveal_with_fuel(digits_value, 2);
    if n < 10 {
        assert(s.drop_last() =~= Seq::empty());
        assert(digit_in(s.last(), 10) == Some(n));
    } else {
        lemma_decimal_digits(n / 10);
        assert(s.drop_last() =~= decimal(n / 10));
        assert(digit_in(s.last(), 10) == Some(n % 10));
        assert(s[0] == decimal(n / 10)[0]);
        assert forall|i: int| 0 <= i < s.len() implies '0' <= #[trigger] s[i] <= '9' by {
            if i < s.len() - 1 {
                assert(s[i] == decimal(n / 10)[i]);
            }
        }
    }
}

/// A number in decimal is read back as itself where it is at most `max`, with
/// or without a plus sign, and is not read otherwise.
pub proof fn decimal_reads_back(n: nat, max: nat)
    ensures
        at_most(numeral(decimal(n), 10), max) == if n <= max {
            Some(n)
        } else {
            None
        },
        at_most(signed_numeral(decimal(n), 10), max) == at_most(numeral(decimal(n), 10), max),
        at_most(signed_numeral(seq!['+'] + decimal(n), 10), max) == at_most(
            numeral(decimal(n), 10),
            max,
        ),
{
    lemma_decimal_digits(n);
    assert((seq!['+'] + decimal(n)).drop_first() =~= decimal(n));
}

/// A byte as two hexadecimal digits is read back as itself.
pub proof fn hex_pair_reads_back(b: u8)
    ensures
        at_most(signed_numeral(hex_pair(b), 16), 255) == Some(b as nat),
        !hex_pair(b).contains(':'),
        !hex_pair(b).contains(','),
{
    let s = hex_pair(b);
    reveal_with_fuel(digits_value, 3);
    assert(s.drop_last() =~= seq![hex_char((b / 16) as nat)]);
    assert(s.drop_last().drop_last() =~= Seq::empty());
    assert(digit_in(s[0], 16) == Some((b / 16) as nat));
    assert(digit_in(s[1], 16) == Some((b % 16) as nat));
    assert(digits_value(s.drop_last(), 16) == Some((b / 16) as nat));
    assert forall|i: int| 0 <= i < s.len() implies #[trigger] s[i] != ':' && s[i] != ','
        && s[i] != '+' by {}
}

// ---------------------------------------------------------------------------
// Addresses
// ---------------------------------------------------------------------------

proof fn lemma_octet(b: u8)
    ensures
        octet_of(decimal(b as nat)) == Some(b),
        !decimal(b as nat).contains('.'),
        !decimal(b as nat).contains(','),
        !decimal(b as nat).contains(':'),
{
    let s = decimal(b as nat);
    lemma_decimal_digits(b as nat);
}

proof fn lemma_octets_bits(a: Ipv4Addr)
    ensures
        a.spec_octets().len() == 4,
        octets_bits(
            a.spec_octets()[0],
            a.spec_octets()[1],
            a.spec_octets()[2],
            a.spec_octets()[3],
        ) == a.bits,
{
    lemma_be_bytes_len(a.bits as nat, 4);
    lemma_byte_ranges();
    lemma_value_of_bytes(a.bits as nat, 4);
    reveal_with_fuel(be_value, 5);
}

/// The four parts of the text of an address.
proof fn lemma_ipv4_parts(a: Ipv4Addr) -> (p: Seq<Seq<char>>)
    ensures
        p.len() == 4,
        joined(p, '.') == ipv4_text(a),
        a.spec_octets().len() == 4,
        forall|i: int| 0 <= i < 4 ==> #[trigger] p[i] == decimal(a.spec_octets()[i] as nat),
{
    let o = a.spec_octets();
    let p = seq![
        decimal(o[0] as nat),
        decimal(o[1] as nat),
        decimal(o[2] as nat),
        decimal(o[3] as nat),
    ];
    lemma_octets_bits(a);
    reveal_with_fuel(joined, 5);
    assert(p.drop_last() =~= seq![p[0], p[1], p[2]]);
    assert(p.drop_last().drop_last() =~= seq![p[0], p[1]]);
    assert(p.drop_last().drop_last().drop_last() =~= seq![p[0]]);
    assert(joined(p, '.') =~= ipv4_text(a));
    p
}

/// The text of an IPv4 address is read back as that address.
pub proof fn ipv4_text_reads_back(a: Ipv4Addr)
    ensures
        ipv4_of(ipv4_text(a)) == Some(a),
{
    let p = lemma_ipv4_parts(a);
    let o = a.spec_octets();
    assert forall|i: int| 0 <= i < p.len() implies !(#[trigger] p[i]).contains('.') by {
        lemma_octet(o[i]);
    }
    joined_pieces_come_apart(p, '.');
    lemma_octet(o[0]);
    lemma_octet(o[1]);
    lemma_octet(o[2]);
    lemma_octet(o[3]);
    assert(p[0] == decimal(o[0] as nat));
    assert(p[1] == decimal(o[1] as nat));
    assert(p[2] == decimal(o[2] as nat));
    assert(p[3] == decimal(o[3] as nat));
    lemma_octets_bits(a);
}

proof fn lemma_digits_are_decimal(s: Seq<char>, v: nat)
    requires
        s.len() > 0,
        s.len() > 1 ==> s[0] != '0',
        digits_value(s, 10) == Some(v),
    ensures
        s == decimal(v),
    decreases s.len(),
{
    let front = s.drop_last();
    let d = digit_in(s.last(), 10)->0;
    reveal_with_fuel(digits_value, 2);
    if s.len() == 1 {
        assert(front =~= Seq::empty());
        assert(s =~= decimal(v));
    } else {
        let w = digits_value(front, 10)->0;
        lemma_digits_are_decimal(front, w);
        assert(front[0] == s[0]);
        if w == 0 {
            assert(decimal(0)[0] == '0');
        }
        assert(v == w * 10 + d && d < 10);
        assert(v / 10 == w && v % 10 == d);
        assert(s =~= front.push(s.last()));
    }
}

/// An IPv4 address has one text only: whatever is read as it is its text, so
/// that no leading zeros, signs or further characters are accepted.
pub proof fn ipv4_text_is_the_only_one(s: Seq<char>, a: Ipv4Addr)
    requires
        ipv4_of(s) == Some(a),
    ensures
        s == ipv4_text(a),
{
    let p = split_on(s, '.');
    split_loses_nothing(s, '.');
    let o = seq![
        octet_of(p[0])->0,
        octet_of(p[1])->0,
        octet_of(p[2])->0,
        octet_of(p[3])->0,
    ];
    reveal_with_fuel(be_value, 5);
    assert(o.drop_last() =~= seq![o[0], o[1], o[2]]);
    assert(o.drop_last().drop_last() =~= seq![o[0], o[1]]);
    assert(o.drop_last().drop_last().drop_last() =~= seq![o[0]]);
    assert(o.drop_last().drop_last().drop_last().drop_last() =~= Seq::empty());
    assert(be_value(o) == a.bits);
    lemma_bytes_of_value(o);
    assert(a.spec_octets() == o);
    let q = lemma_ipv4_parts(a);
    assert forall|i: int| 0 <= i < 4 implies #[trigger] p[i] == q[i] by {
        assert(octet_of(p[i]) == Some(o[i]));
        lemma_digits_are_decimal(p[i], o[i] as nat);
        assert(q[i] == decimal(o[i] as nat));
    }
    assert(p =~= q);
}

proof fn lemma_ipv4_text_chars(a: Ipv4Addr)
    ensures
        ipv4_text(a).len() > 0,
        forall|i: int|
            0 <= i < ipv4_text(a).len() ==> '0' <= #[trigger] ipv4_text(a)[i] <= '9' || ipv4_text(
                a,
            )[i] == '.',
{
    lemma_octets_bits(a);
    lemma_decimal_digits(a.spec_octets()[0] as nat);
    lemma_decimal_digits(a.spec_octets()[1] as nat);
    lemma_decimal_digits(a.spec_octets()[2] as nat);
    lemma_decimal_digits(a.spec_octets()[3] as nat);
}

/// An IPv4 address, a colon and a port of at most 65535 are read as the socket
/// address of both; larger ports are not accepted.
pub proof fn ipv4_socket_reads_back(a: Ipv4Addr, port: nat)
    ensures
        socket_of(ipv4_text(a) + seq![':'] + decimal(port)) == if port <= 65535 {
            Some(socket_v4(a, port as u16))
        } else {
            None
        },
{
    let s = ipv4_text(a) + seq![':'] + decimal(port);
    let n = ipv4_text(a).len() as int;
    lemma_ipv4_text_chars(a);
    lemma_first_index(s, ':');
    assert(s[n] == ':');
    let i = first_index(s, ':')->0;
    if i < n {
        assert(s[i] == ipv4_text(a)[i]);
    }
    assert(s.take(n) =~= ipv4_text(a));
    assert(s.skip(n + 1) =~= decimal(port));
    ipv4_text_reads_back(a);
    decimal_reads_back(port, 0xffff);
    assert(s[0] == ipv4_text(a)[0]);
}

/// An IPv6 address in brackets, with or without a scope number behind `%`, a
/// colon and a port of at most 65535 are read as the socket address of them.
pub proof fn ipv6_socket_reads_back(host: Seq<char>, ip: Ipv6Addr, scope: nat, port: nat)
    requires
        ipv6_of(host) == Some(ip),
        !host.contains(']'),
        !host.contains('%'),
    ensures
        socket_of(seq!['['] + host + seq![']', ':'] + decimal(port)) == if port <= 65535 {
            Some(socket_v6(ip, port as u16, 0))
        } else {
            None
        },
        socket_of(seq!['['] + (host + seq!['%'] + decimal(scope)) + seq![']', ':'] + decimal(port))
            == if port <= 65535 && scope <= 0xffff_ffff {
            Some(socket_v6(ip, port as u16, scope as u32))
        } else {
            None
        },
{
    let scoped = host + seq!['%'] + decimal(scope);
    lemma_decimal_digits(scope);
    lemma_first_index(host, '%');
    if first_index(host, '%') is Some {
        assert(host.contains(host[first_index(host, '%')->0]));
    }
    lemma_bracketed(host, port);
    lemma_first_index(scoped, '%');
    let n = host.len() as int;
    assert(scoped[n] == '%');
    let i = first_index(scoped, '%')->0;
    if i < n {
        assert(scoped[i] == host[i]);
        assert(host.contains(host[i]));
    }
    assert(scoped.take(n) =~= host);
    assert(scoped.skip(n + 1) =~= decimal(scope));
    decimal_reads_back(scope, 0xffff_ffff);
    assert forall|j: int| 0 <= j < scoped.len() implies #[trigger] scoped[j] != ']' by {
        if j < n {
            assert(scoped[j] == host[j]);
            assert(host.contains(host[j]));
        } else if j > n {
            assert(scoped[j] == decimal(scope)[j - n - 1]);
        }
    }
    lemma_bracketed(scoped, port);
}

proof fn lemma_bracketed(host: Seq<char>, port: nat)
    requires
        !host.contains(']'),
    ensures
        socket_of(seq!['['] + host + seq![']', ':'] + decimal(port)) == match scoped_host_of(host) {
            Some((ip, scope)) => if port <= 65535 {
                Some(socket_v6(ip, port as u16, scope))
            } else {
                None
            },
            None => None,
        },
{
    let s = seq!['['] + host + seq![']', ':'] + decimal(port);
    let q = host.len() as int + 1;
    assert(s[0] == '[');
    assert(socket_v4_of(s) is None) by {
        lemma_first_index(s, ':');
        let p = first_index(s, ':')->0;
        if ipv4_of(s.take(p)) is Some && first_index(s, ':') is Some {
            let a = ipv4_of(s.take(p))->0;
            ipv4_text_is_the_only_one(s.take(p), a);
            lemma_ipv4_text_chars(a);
            assert(s.take(p)[0] == '[');
        }
    }
    lemma_first_index(s, ']');
    assert(s[q] == ']');
    assert(s[q + 1] == ':');
    let i = first_index(s, ']')->0;
    if 0 < i < q {
        assert(s[i] == host[i - 1]);
        assert(host.contains(host[i - 1]));
    }
    assert(i == q);
    assert(s.subrange(1, q) =~= host);
    assert(s.skip(q + 2) =~= decimal(port));
    decimal_reads_back(port, 0xffff);
}

/// The digits of base ten and sixteen, in lower and in upper case.
pub proof fn digits_of_both_bases(c: char)
    ensures
        '0' <= c <= '9' ==> digit_in(c, 10) == Some((c as u32 - '0' as u32) as nat) && digit_in(
            c,
            16,
        ) == digit_in(c, 10),
        'a' <= c <= 'f' ==> digit_in(c, 16) == Some((c as u32 - 'a' as u32 + 10) as nat),
        'A' <= c <= 'F' ==> digit_in(c, 16) == Some((c as u32 - 'A' as u32 + 10) as nat),
        !('0' <= c <= '9') ==> digit_in(c, 10) is None,
        !('0' <= c <= '9') && !('a' <= c <= 'f') && !('A' <= c <= 'F') ==> digit_in(c, 16) is None,
{
}

/// A group of an IPv6 address is one to four digits of base sixteen, whatever
/// zeros it starts with: all four digits of a number spell it, and zeros in
/// front of fewer digits change nothing.
pub proof fn ipv6_group_reads_back(g: u16, s: Seq<char>)
    ensures
        group_of(
            seq![
                hex_char((g / 0x1000) as nat),
                hex_char((g / 0x100 % 16) as nat),
                hex_char((g / 16 % 16) as nat),
                hex_char((g % 16) as nat),
            ],
        ) == Some(g),
        1 <= s.len() <= 3 ==> group_of(seq!['0'] + s) == group_of(s),
        s.len() == 0 || s.len() > 4 ==> group_of(s) is None,
{
    let a = (g / 0x1000) as nat;
    let b = (g / 0x100 % 16) as nat;
    let c = (g / 16 % 16) as nat;
    let d = (g % 16) as nat;
    let none = Seq::<char>::empty();
    assert(digits_value(none, 16) == Some(0nat));
    lemma_hex_digit_pushed(none, 0, a);
    let one = none.push(hex_char(a));
    lemma_hex_digit_pushed(one, a, b);
    let two = one.push(hex_char(b));
    lemma_hex_digit_pushed(two, a * 16 + b, c);
    let three = two.push(hex_char(c));
    lemma_hex_digit_pushed(three, (a * 16 + b) * 16 + c, d);
    assert(three.push(hex_char(d)) =~= seq![hex_char(a), hex_char(b), hex_char(c), hex_char(d)]);
    assert(((a * 16 + b) * 16 + c) * 16 + d == g);
    lemma_zero_in_front(s, 16);
}

proof fn lemma_hex_digit_pushed(s: Seq<char>, v: nat, d: nat)
    requires
        digits_value(s, 16) == Some(v),
        d < 16,
    ensures
        digits_value(s.push(hex_char(d)), 16) == Some(v * 16 + d),
{
    assert(s.push(hex_char(d)).drop_last() =~= s);
    assert(digit_in(hex_char(d), 16) == Some(d));
}

proof fn lemma_zero_in_front(s: Seq<char>, radix: nat)
    requires
        radix == 10 || radix == 16,
    ensures
        digits_value(seq!['0'] + s, radix) == digits_value(s, radix),
    decreases s.len(),
{
    let t = seq!['0'] + s;
    reveal_with_fuel(digits_value, 2);
    if s.len() == 0 {
        assert(t.drop_last() =~= Seq::empty());
        assert(digit_in('0', radix) == Some(0nat));
    } else {
        assert(t.drop_last() =~= seq!['0'] + s.drop_last());
        lemma_zero_in_front(s.drop_last(), radix);
    }
}

proof fn lemma_plain_groups(pieces: Seq<Seq<char>>, g: Seq<u16>)
    requires
        pieces.len() == g.len(),
        forall|i: int| 0 <= i < g.len() ==> group_of(#[trigger] pieces[i]) == Some(g[i]),
    ensures
        plain_groups(pieces) == Some(g),
    decreases pieces.len(),
{
    if pieces.len() == 0 {
        assert(g =~= Seq::empty());
    } else {
        let front = pieces.drop_last();
        assert forall|i: int| 0 <= i < g.drop_last().len() implies group_of(#[trigger] front[i])
            == Some(g.drop_last()[i]) by {
            assert(front[i] == pieces[i]);
        }
        lemma_plain_groups(front, g.drop_last());
        assert(group_of(pieces[pieces.len() - 1]) == Some(g[g.len() - 1]));
        assert(g.drop_last().push(g.last()) =~= g);
    }
}

/// Whether each of `pieces` spells the group of `g` at its place, without
/// colons.
pub open spec fn spells_groups(pieces: Seq<Seq<char>>, g: Seq<u16>) -> bool {
    &&& pieces.len() == g.len()
    &&& forall|i: int|
        0 <= i < g.len() ==> group_of(#[trigger] pieces[i]) == Some(g[i]) && !pieces[i].contains(
            ':',
        )
}

proof fn lemma_side(pieces: Seq<Seq<char>>, g: Seq<u16>)
    requires
        spells_groups(pieces, g),
    ensures
        side_groups(joined(pieces, ':')) == Some((g, false)),
        g.len() > 0 ==> joined(pieces, ':').len() > 0 && joined(pieces, ':')[0] != ':' && joined(
            pieces,
            ':',
        ).last() != ':',
        forall|i: int|
            0 <= i < joined(pieces, ':').len() - 1 ==> !(#[trigger] joined(pieces, ':')[i] == ':'
                && joined(pieces, ':')[i + 1] == ':'),
    decreases pieces.len(),
{
    let s = joined(pieces, ':');
    if g.len() == 0 {
        assert(g =~= Seq::empty());
    } else {
        let front = pieces.drop_last();
        let last = pieces.last();
        assert(group_of(pieces[pieces.len() - 1]) == Some(g[g.len() - 1]));
        assert(last.len() > 0);
        assert(forall|i: int| 0 <= i < last.len() ==> last.contains(#[trigger] last[i]));
        joined_pieces_come_apart(pieces, ':');
        assert forall|i: int| 0 <= i < g.drop_last().len() implies group_of(#[trigger] front[i])
            == Some(g.drop_last()[i]) && !front[i].contains(':') by {
            assert(front[i] == pieces[i]);
        }
        lemma_plain_groups(front, g.drop_last());
        assert(g.drop_last().push(g.last()) =~= g);
        if pieces.len() > 1 {
            let t = joined(front, ':');
            lemma_side(front, g.drop_last());
            assert(s =~= t + seq![':'] + last);
            assert forall|i: int| 0 <= i < s.len() - 1 implies !(#[trigger] s[i] == ':' && s[i + 1]
                == ':') by {
                if i < t.len() - 1 {
                    assert(s[i] == t[i] && s[i + 1] == t[i + 1]);
                } else if i == t.len() - 1 {
                    assert(s[i] == t.last());
                } else if i == t.len() {
                    assert(s[i + 1] == last[0]);
                } else {
                    assert(s[i] == last[i - t.len() - 1]);
                }
            }
        } else {
            assert(s == last);
        }
    }
}

proof fn lemma_first_pair(s: Seq<char>, a: char, b: char, p: int)
    requires
        0 <= p <= s.len(),
        forall|i: int| 0 <= i < p && i < s.len() - 1 ==> !(#[trigger] s[i] == a && s[i + 1] == b),
        p < s.len() ==> p + 1 < s.len() && s[p] == a && s[p + 1] == b,
    ensures
        first_pair(s, a, b) == if p < s.len() {
            Some(p)
        } else {
            None
        },
    decreases s.len(),
{
    if s.len() >= 2 && p > 0 {
        let t = s.drop_first();
        assert(!(s[0] == a && s[1] == b));
        assert forall|i: int| 0 <= i < p - 1 && i < t.len() - 1 implies !(#[trigger] t[i] == a
            && t[i + 1] == b) by {
            assert(t[i] == s[i + 1]);
        }
        lemma_first_pair(t, a, b, p - 1);
    }
}

/// Eight groups with colons between them are an IPv6 address: the number that
/// the groups write, most significant first.
pub proof fn eight_groups_are_an_ipv6_address(pieces: Seq<Seq<char>>, g: Seq<u16>)
    requires
        spells_groups(pieces, g),
        g.len() == 8,
    ensures
        ipv6_of(joined(pieces, ':')) == Some(
            Ipv6Addr {
                bits: (g[0] * 0x1_0000_0000_0000_0000_0000_0000_0000 + g[1]
                    * 0x1_0000_0000_0000_0000_0000_0000 + g[2] * 0x1_0000_0000_0000_0000_0000
                    + g[3] * 0x1_0000_0000_0000_0000 + g[4] * 0x1_0000_0000_0000 + g[5]
                    * 0x1_0000_0000 + g[6] * 0x1_0000 + g[7]) as u128,
            },
        ),
{
    let s = joined(pieces, ':');
    lemma_side(pieces, g);
    lemma_first_pair(s, ':', ':', s.len() as int);
    reveal_with_fuel(groups_value, 9);
}

/// Fewer groups around one `::` are the IPv6 address with zeros in the gap.
pub proof fn double_colon_stands_for_zeros(
    left: Seq<Seq<char>>,
    head: Seq<u16>,
    right: Seq<Seq<char>>,
    tail: Seq<u16>,
)
    requires
        spells_groups(left, head),
        spells_groups(right, tail),
        head.len() + tail.len() <= 7,
    ensures
        ipv6_of(joined(left, ':') + seq![':', ':'] + joined(right, ':')) == Some(
            Ipv6Addr {
                bits: groups_value(
                    head + Seq::new((8 - head.len() - tail.len()) as nat, |i: int| 0u16) + tail,
                ) as u128,
            },
        ),
{
    lemma_side(left, head);
    lemma_side(right, tail);
    lemma_around_double_colon(joined(left, ':'), head, joined(right, ':'), tail, false);
}

proof fn lemma_around_double_colon(
    x: Seq<char>,
    head: Seq<u16>,
    y: Seq<char>,
    tail: Seq<u16>,
    dotted: bool,
)
    requires
        side_groups(x) == Some((head, false)),
        side_groups(y) == Some((tail, dotted)),
        x.len() > 0 ==> x.last() != ':',
        forall|i: int| 0 <= i < x.len() - 1 ==> !(#[trigger] x[i] == ':' && x[i + 1] == ':'),
        head.len() + tail.len() <= 7,
    ensures
        ipv6_of(x + seq![':', ':'] + y) == Some(
            Ipv6Addr {
                bits: groups_value(
                    head + Seq::new((8 - head.len() - tail.len()) as nat, |i: int| 0u16) + tail,
                ) as u128,
            },
        ),
{
    lemma_double_colon_position(x, y);
}

proof fn lemma_double_colon_position(x: Seq<char>, y: Seq<char>)
    requires
        x.len() > 0 ==> x.last() != ':',
        forall|i: int| 0 <= i < x.len() - 1 ==> !(#[trigger] x[i] == ':' && x[i + 1] == ':'),
    ensures
        first_pair(x + seq![':', ':'] + y, ':', ':') == Some(x.len() as int),
        (x + seq![':', ':'] + y).take(x.len() as int) == x,
        (x + seq![':', ':'] + y).skip(x.len() as int + 2) == y,
{
    let s = x + seq![':', ':'] + y;
    let p = x.len() as int;
    assert forall|i: int| 0 <= i < p && i < s.len() - 1 implies !(#[trigger] s[i] == ':' && s[i + 1]
        == ':') by {
        assert(s[i] == x[i]);
        if i < p - 1 {
            assert(s[i + 1] == x[i + 1]);
        } else {
            assert(s[i] == x.last());
        }
    }
    assert(s[p] == ':' && s[p + 1] == ':');
    lemma_first_pair(s, ':', ':', p);
    assert(s.take(p) =~= x);
    assert(s.skip(p + 2) =~= y);
}

/// The two groups that an IPv4 address at the end of an IPv6 address stands
/// for.
pub open spec fn dotted_groups(a: Ipv4Addr) -> Seq<u16> {
    seq![(a.bits / 0x1_0000) as u16, (a.bits % 0x1_0000) as u16]
}

proof fn lemma_dotted_side(pieces: Seq<Seq<char>>, g: Seq<u16>, a: Ipv4Addr)
    requires
        spells_groups(pieces, g),
    ensures
        side_groups(joined(pieces.push(ipv4_text(a)), ':')) == Some((g + dotted_groups(a), true)),
        forall|i: int|
            0 <= i < joined(pieces.push(ipv4_text(a)), ':').len() - 1 ==> !(#[trigger] joined(
                pieces.push(ipv4_text(a)),
                ':',
            )[i] == ':' && joined(pieces.push(ipv4_text(a)), ':')[i + 1] == ':'),
{
    let t = ipv4_text(a);
    let all = pieces.push(t);
    let s = joined(all, ':');
    let before = joined(pieces, ':');
    lemma_side(pieces, g);
    lemma_ipv4_text_chars(a);
    lemma_ipv4_text_len(a);
    ipv4_text_reads_back(a);
    assert(!t.contains(':'));
    assert(all.drop_last() =~= pieces);
    assert(forall|i: int| 0 <= i < pieces.len() ==> #[trigger] all[i] == pieces[i]);
    joined_pieces_come_apart(all, ':');
    lemma_plain_groups(pieces, g);
    assert(g + dotted_groups(a) =~= g.push((a.bits / 0x1_0000) as u16).push(
        (a.bits % 0x1_0000) as u16,
    ));
    if pieces.len() > 0 {
        assert(s =~= before + seq![':'] + t);
        assert forall|i: int| 0 <= i < s.len() - 1 implies !(#[trigger] s[i] == ':' && s[i + 1]
            == ':') by {
            if i < before.len() - 1 {
                assert(s[i] == before[i] && s[i + 1] == before[i + 1]);
            } else if i == before.len() - 1 {
                assert(s[i] == before.last());
            } else {
                assert(s[i + 1] == t[i - before.len()]);
            }
        }
    } else {
        assert(s =~= t);
    }
}

proof fn lemma_ipv4_text_len(a: Ipv4Addr)
    ensures
        ipv4_text(a).len() >= 7,
{
    lemma_octets_bits(a);
    lemma_decimal_digits(a.spec_octets()[0] as nat);
    lemma_decimal_digits(a.spec_octets()[1] as nat);
    lemma_decimal_digits(a.spec_octets()[2] as nat);
    lemma_decimal_digits(a.spec_octets()[3] as nat);
}

/// The last two of eight groups may be written as an IPv4 address.
pub proof fn ipv6_address_may_end_dotted(left: Seq<Seq<char>>, head: Seq<u16>, a: Ipv4Addr)
    requires
        spells_groups(left, head),
        head.len() == 6,
    ensures
        ipv6_of(joined(left.push(ipv4_text(a)), ':')) == Some(
            Ipv6Addr { bits: groups_value(head + dotted_groups(a)) as u128 },
        ),
{
    let s = joined(left.push(ipv4_text(a)), ':');
    lemma_dotted_side(left, head, a);
    lemma_first_pair(s, ':', ':', s.len() as int);
}

/// The last two groups behind `::` may be written as an IPv4 address, too.
pub proof fn double_colon_may_end_dotted(
    left: Seq<Seq<char>>,
    head: Seq<u16>,
    right: Seq<Seq<char>>,
    tail: Seq<u16>,
    a: Ipv4Addr,
)
    requires
        spells_groups(left, head),
        spells_groups(right, tail),
        head.len() + tail.len() <= 5,
    ensures
        ipv6_of(joined(left, ':') + seq![':', ':'] + joined(right.push(ipv4_text(a)), ':')) == Some(
            Ipv6Addr {
                bits: groups_value(
                    head + Seq::new((6 - head.len() - tail.len()) as nat, |i: int| 0u16) + (tail
                        + dotted_groups(a)),
                ) as u128,
            },
        ),
{
    let x = joined(left, ':');
    let y = joined(right.push(ipv4_text(a)), ':');
    lemma_side(left, head);
    lemma_dotted_side(right, tail, a);
    lemma_around_double_colon(x, head, y, tail + dotted_groups(a), true);
}

// ---------------------------------------------------------------------------
// The leases file
// ---------------------------------------------------------------------------

proof fn lemma_hex_octets(pieces: Seq<Seq<char>>, mac: Seq<u8>)
    requires
        pieces.len() == mac.len(),
        forall|i: int| 0 <= i < mac.len() ==> #[trigger] pieces[i] == hex_pair(mac[i]),
    ensures
        hex_octets(pieces) == mac,
    decreases pieces.len(),
{
    if pieces.len() == 0 {
        assert(mac =~= Seq::empty());
    } else {
        let front = pieces.drop_last();
        let m = mac.drop_last();
        assert forall|i: int| 0 <= i < m.len() implies #[trigger] front[i] == hex_pair(m[i]) by {
            assert(front[i] == pieces[i]);
        }
        lemma_hex_octets(front, m);
        assert(pieces[pieces.len() - 1] == hex_pair(mac[mac.len() - 1]));
        hex_pair_reads_back(mac.last());
        assert(m.push(mac.last()) =~= mac);
    }
}

proof fn lemma_hex_pairs(mac: Seq<u8>)
    ensures
        hex_pairs(mac) == joined(Seq::new(mac.len(), |i: int| hex_pair(mac[i])), ':'),
        !hex_pairs(mac).contains(','),
    decreases mac.len(),
{
    let p = Seq::new(mac.len(), |i: int| hex_pair(mac[i]));
    if mac.len() > 0 {
        hex_pair_reads_back(mac.last());
        if mac.len() > 1 {
            let m = mac.drop_last();
            let s = hex_pairs(m);
            lemma_hex_pairs(m);
            assert(p.drop_last() =~= Seq::new(m.len(), |i: int| hex_pair(m[i])));
            assert(hex_pairs(mac) == s + seq![':'] + hex_pair(mac.last()));
            assert forall|i: int| 0 <= i < hex_pairs(mac).len() implies #[trigger] hex_pairs(mac)[i]
                != ',' by {
                if i < s.len() {
                    assert(hex_pairs(mac)[i] == s[i]);
                    assert(s.contains(s[i]));
                } else if i > s.len() {
                    let t = hex_pair(mac.last());
                    assert(hex_pairs(mac)[i] == t[i - s.len() - 1]);
                    assert(t.contains(t[i - s.len() - 1]));
                }
            }
        } else {
            assert(mac[0] == mac.last());
        }
    }
}

/// A hardware address in hex pairs, a comma and an IPv4 address are a
/// reservation of that address for that client.
pub proof fn lease_line_reads_back(mac: Seq<u8>, ip: Ipv4Addr)
    requires
        mac.len() == 6,
    ensures
        lease_line_of(hex_pairs(mac) + seq![','] + ipv4_text(ip)) == LeaseLineView::Reservation(
            mac,
            ip,
        ),
{
    let left = hex_pairs(mac);
    let right = ipv4_text(ip);
    let pieces = Seq::new(mac.len(), |i: int| hex_pair(mac[i]));
    lemma_hex_pairs(mac);
    lemma_ipv4_text_chars(ip);
    lemma_split_extended(Seq::empty(), left, ',');
    assert(Seq::<char>::empty() + left =~= left);
    lemma_split_appended(left, right, ',');
    assert(split_on(left + seq![','] + right, ',') =~= seq![left, right]);
    assert forall|i: int| 0 <= i < pieces.len() implies !(#[trigger] pieces[i]).contains(':') by {
        hex_pair_reads_back(mac[i]);
    }
    joined_pieces_come_apart(pieces, ':');
    lemma_hex_octets(pieces, mac);
    trim_leaves_the_rest(right);
    ipv4_text_reads_back(ip);
}

/// A line with another number of commas than one says nothing.
pub proof fn lease_lines_have_one_comma(line: Seq<char>)
    requires
        split_on(line, ',').len() != 2,
    ensures
        lease_line_of(line) == LeaseLineView::Nothing,
{
}

/// A DUID, a comma and an IPv6 address, with white space around both or
/// without, are a reservation of that address for that client.
pub proof fn lease6_line_reads_back(
    left: Seq<char>,
    right: Seq<char>,
    duid: Seq<u8>,
    ip: Ipv6Addr,
)
    requires
        !left.contains(','),
        !right.contains(','),
        duid_of(encode_utf8(trim(left))) == Ok::<Seq<u8>, DuidError>(duid),
        ipv6_of(trim(right)) == Some(ip),
    ensures
        lease6_line_of(left + seq![','] + right) == Some((duid, ip)),
{
    lemma_split_extended(Seq::empty(), left, ',');
    assert(Seq::<char>::empty() + left =~= left);
    lemma_split_appended(left, right, ',');
    assert(split_on(left + seq![','] + right, ',') =~= seq![left, right]);
}

// ---------------------------------------------------------------------------
// The configuration file
// ---------------------------------------------------------------------------

proof fn lemma_trim_start_prefix(a: Seq<char>, t: Seq<char>)
    requires
        trim_start(a).len() > 0,
    ensures
        trim_start(a + t) == trim_start(a) + t,
    decreases a.len(),
{
    if is_whitespace(a.first()) {
        assert((a + t).drop_first() =~= a.drop_first() + t);
        lemma_trim_start_prefix(a.drop_first(), t);
    }
}

proof fn lemma_trim_end_suffix(t: Seq<char>, c: char, b: Seq<char>)
    requires
        !is_whitespace(c),
    ensures
        trim_end(t + seq![c] + b) == t + seq![c] + trim_end(b),
    decreases b.len(),
{
    let s = t + seq![c] + b;
    if b.len() == 0 {
        assert(s.last() == c);
        assert(s =~= t + seq![c] + trim_end(b));
    } else if is_whitespace(b.last()) {
        assert(s.last() == b.last());
        assert(s.drop_last() =~= t + seq![c] + b.drop_last());
        lemma_trim_end_suffix(t, c, b.drop_last());
    } else {
        assert(s.last() == b.last());
    }
}

proof fn lemma_trim_of_trim_end(b: Seq<char>)
    ensures
        trim(trim_end(b)) == trim(b),
    decreases b.len(),
{
    if b.len() > 0 && is_whitespace(b.last()) {
        lemma_trim_of_trim_end(b.drop_last());
        lemma_trim_without_last(b);
    }
}

proof fn lemma_trim_without_last(b: Seq<char>)
    requires
        b.len() > 0,
        is_whitespace(b.last()),
    ensures
        trim(b.drop_last()) == trim(b),
    decreases b.len(),
{
    if is_whitespace(b.first()) {
        if b.len() == 1 {
            assert(b.drop_last() =~= Seq::empty());
            assert(b.drop_first() =~= Seq::empty());
        } else {
            assert(b.drop_last().drop_first() =~= b.drop_first().drop_last());
            assert(b.drop_last().first() == b.first());
            lemma_trim_without_last(b.drop_first());
        }
    } else {
        assert(b.len() > 1);
        assert(b.drop_last().first() == b.first());
    }
}

proof fn lemma_trim_of_trim_start(a: Seq<char>)
    ensures
        trim(trim_start(a)) == trim(a),
    decreases a.len(),
{
    if a.len() > 0 && is_whitespace(a.first()) {
        lemma_trim_of_trim_start(a.drop_first());
    }
}

/// A line with a `=` assigns what stands behind the first one, without a
/// trailing comment, to the key before it; white space around both is of no
/// account. Only a line whose first character starts a comment does not.
pub proof fn equals_sign_assigns(a: Seq<char>, b: Seq<char>)
    requires
        !a.contains('='),
        trim(a).len() > 0,
        trim(a)[0] != '#',
        trim(a)[0] != ';',
    ensures
        line_of(a + seq!['='] + b) == LineView::Assignment(trim(a), without_comment(trim(b))),
{
    let raw = a + seq!['='] + b;
    let head = trim_start(a);
    let pre = lemma_trim_start(a);
    let post = lemma_trim_end(head);
    assert(head.len() > 0);
    assert(a + seq!['='] + b =~= a + (seq!['='] + b));
    lemma_trim_start_prefix(a, seq!['='] + b);
    assert(head + (seq!['='] + b) =~= head + seq!['='] + b);
    lemma_trim_end_suffix(head, '=', b);
    let line = head + seq!['='] + trim_end(b);
    assert(trim(raw) == line);
    assert(line[0] == head[0]);
    assert(head[0] == trim(a)[0]);
    lemma_first_index(line, '=');
    let n = head.len() as int;
    assert(line[n] == '=');
    let i = first_index(line, '=')->0;
    if i < n {
        assert(line[i] == head[i]);
        assert(a[pre.len() + i] == head[i]);
    }
    assert(line.take(n) =~= head);
    assert(line.skip(n + 1) =~= trim_end(b));
    lemma_trim_of_trim_start(a);
    lemma_trim_of_trim_end(b);
}

/// A line says nothing exactly when it is blank or its first character, white
/// space aside, is `#` or `;`; a line without `=` that says something is no
/// assignment.
pub proof fn silent_lines(raw: Seq<char>)
    ensures
        line_of(raw) == LineView::Nothing <==> trim(raw).len() == 0 || trim(raw)[0] == '#' || trim(
            raw,
        )[0] == ';',
        line_of(raw) == LineView::Other ==> !trim(raw).contains('='),
        trim(raw).len() > 0 && trim(raw)[0] != '#' && trim(raw)[0] != ';' && !trim(raw).contains(
            '=',
        ) ==> line_of(raw) == LineView::Other,
{
    lemma_first_index(trim(raw), '=');
}

// ---------------------------------------------------------------------------
// The request log
// ---------------------------------------------------------------------------

/// A line of the request log has five fields between tabs: the time, the
/// hardware address, the address that the client asks for, its host name or
/// `-`, and `Online`.
pub proof fn log_line_has_five_fields(
    timestamp: Seq<char>,
    mac: Seq<u8>,
    ip: Ipv4Addr,
    hostname: Option<Seq<char>>,
)
    requires
        !timestamp.contains('\t'),
        hostname matches Some(name) ==> !name.contains('\t'),
    ensures
        split_on(monitor_text(timestamp, mac, ip, hostname), '\t') == seq![
            timestamp,
            hex_pairs(mac),
            ipv4_text(ip),
            match hostname {
                Some(name) => name,
                None => "-"@,
            },
            "Online"@,
        ],
{
    let name = match hostname {
        Some(name) => name,
        None => "-"@,
    };
    let p = seq![timestamp, hex_pairs(mac), ipv4_text(ip), name, "Online"@];
    reveal_strlit("-");
    reveal_strlit("Online");
    reveal_strlit("\tOnline");
    lemma_hex_pairs_chars(mac);
    lemma_ipv4_text_chars(ip);
    assert(!"-"@.contains('\t'));
    assert(!"Online"@.contains('\t'));
    joined_pieces_come_apart(p, '\t');
    reveal_with_fuel(joined, 6);
    assert(p.drop_last() =~= seq![p[0], p[1], p[2], p[3]]);
    assert(p.drop_last().drop_last() =~= seq![p[0], p[1], p[2]]);
    assert(p.drop_last().drop_last().drop_last() =~= seq![p[0], p[1]]);
    assert(p.drop_last().drop_last().drop_last().drop_last() =~= seq![p[0]]);
    assert("\tOnline"@ =~= seq!['\t'] + "Online"@);
    assert(joined(p, '\t') =~= monitor_text(timestamp, mac, ip, hostname));
}

proof fn lemma_hex_pairs_chars(mac: Seq<u8>)
    ensures
        !hex_pairs(mac).contains('\t'),
    decreases mac.len(),
{
    if mac.len() > 1 {
        lemma_hex_pairs_chars(mac.drop_last());
        let s = hex_pairs(mac.drop_last());
        assert forall|i: int| 0 <= i < hex_pairs(mac).len() implies #[trigger] hex_pairs(mac)[i]
            != '\t' by {
            if i < s.len() {
                assert(hex_pairs(mac)[i] == s[i]);
                assert(s.contains(s[i]));
            }
        }
    }
}

// ---------------------------------------------------------------------------
// Dates
// ---------------------------------------------------------------------------

proof fn lemma_padded(n: nat, width: nat)
    requires
        width == 2 && n < 100 || width == 4 && n < 10000,
    ensures
        decimal_padded(n, width).len() == width,
        digits_value(decimal_padded(n, width), 10) == Some(n),
{
    let d = decimal(n);
    lemma_decimal_digits(n);
    if n >= 1000 {
        lemma_decimal_digits(n / 10);
        assert(d =~= decimal(n / 10).push(digit_char(n % 10)));
    }
    let k = (width - d.len()) as nat;
    if d.len() < width {
        lemma_zeros_in_front(k, d);
        assert(decimal_padded(n, width) =~= Seq::new(k, |i: int| '0') + d);
    }
}

proof fn lemma_zeros_in_front(k: nat, d: Seq<char>)
    ensures
        digits_value(Seq::new(k, |i: int| '0') + d, 10) == digits_value(d, 10),
    decreases d.len(), k,
{
    let s = Seq::new(k, |i: int| '0') + d;
    reveal_with_fuel(digits_value, 2);
    if d.len() > 0 {
        assert(s.drop_last() =~= Seq::new(k, |i: int| '0') + d.drop_last());
        lemma_zeros_in_front(k, d.drop_last());
    } else if k > 0 {
        assert(s.drop_last() =~= Seq::new((k - 1) as nat, |i: int| '0') + d);
        lemma_zeros_in_front((k - 1) as nat, d);
        assert(digit_in('0', 10) == Some(0nat));
    }
}

/// The text of a moment up to the year 9999 spells the date and the time of day
/// in fixed places: four digits of the year, and two each of the month, the
/// day, the hour, the minute and the second.
pub proof fn iso_text_spells_date_and_time(text: Seq<char>, secs: nat, y: nat, m: nat, d: nat)
    requires
        is_iso_text(text, secs),
        valid_date(y as int, m as int, d as int),
        day_number(y as int, m as int, d as int) == secs / 86400,
        y < 10000,
    ensures
        text.len() == 19,
        digits_value(text.subrange(0, 4), 10) == Some(y),
        text[4] == '-',
        digits_value(text.subrange(5, 7), 10) == Some(m),
        text[7] == '-',
        digits_value(text.subrange(8, 10), 10) == Some(d),
        text[10] == 'T',
        digits_value(text.subrange(11, 13), 10) == Some((secs % 86400) / 3600),
        text[13] == ':',
        digits_value(text.subrange(14, 16), 10) == Some((secs % 3600) / 60),
        text[16] == ':',
        digits_value(text.subrange(17, 19), 10) == Some(secs % 60),
{
    let t = secs % 86400;
    let date = date_text(y, m, d);
    let time = time_text(t);
    let whole = date + seq!['T'] + time;
    assert(is_iso_text(whole, secs));
    iso_text_unique(text, whole, secs);
    lemma_date_spells(y, m, d);
    lemma_time_spells(secs);
    assert(text.subrange(0, 4) =~= date.subrange(0, 4));
    assert(text.subrange(5, 7) =~= date.subrange(5, 7));
    assert(text.subrange(8, 10) =~= date.subrange(8, 10));
    assert(text.subrange(11, 13) =~= time.subrange(0, 2));
    assert(text.subrange(14, 16) =~= time.subrange(3, 5));
    assert(text.subrange(17, 19) =~= time.subrange(6, 8));
}

proof fn lemma_date_spells(y: nat, m: nat, d: nat)
    requires
        y < 10000,
        m < 100,
        d < 100,
    ensures
        date_text(y, m, d).len() == 10,
        digits_value(date_text(y, m, d).subrange(0, 4), 10) == Some(y),
        date_text(y, m, d)[4] == '-',
        digits_value(date_text(y, m, d).subrange(5, 7), 10) == Some(m),
        date_text(y, m, d)[7] == '-',
        digits_value(date_text(y, m, d).subrange(8, 10), 10) == Some(d),
{
    let text = date_text(y, m, d);
    lemma_padded(y, 4);
    lemma_padded(m, 2);
    lemma_padded(d, 2);
    assert(text.subrange(0, 4) =~= decimal_padded(y, 4));
    assert(text.subrange(5, 7) =~= decimal_padded(m, 2));
    assert(text.subrange(8, 10) =~= decimal_padded(d, 2));
}

proof fn lemma_time_spells(secs: nat)
    ensures
        ({
            let text = time_text(secs % 86400);
            &&& text.len() == 8
            &&& digits_value(text.subrange(0, 2), 10) == Some((secs % 86400) / 3600)
            &&& text[2] == ':'
            &&& digits_value(text.subrange(3, 5), 10) == Some((secs % 3600) / 60)
            &&& text[5] == ':'
            &&& digits_value(text.subrange(6, 8), 10) == Some(secs % 60)
        }),
{
    let t = secs % 86400;
    let text = time_text(t);
    assert(t % 3600 == secs % 3600);
    assert(t % 60 == secs % 60);
    lemma_padded(t / 3600, 2);
    lemma_padded((t % 3600) / 60, 2);
    lemma_padded(t % 60, 2);
    assert(text.subrange(0, 2) =~= decimal_padded(t / 3600, 2));
    assert(text.subrange(3, 5) =~= decimal_padded((t % 3600) / 60, 2));
    assert(text.subrange(6, 8) =~= decimal_padded(t % 60, 2));
}

} // verus!
