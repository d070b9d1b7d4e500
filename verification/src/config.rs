//! The configuration file `dhcp.conf`.
//!
//! ```text
//! # lines starting with '#' or ';' are comments; blank lines are ignored
//! server_ip = 192.168.2.1
//! dns_ips   = 8.8.8.8, 8.8.4.4
//! ```
//!
//! - Keys are case-insensitive; surrounding white space is trimmed.
//! - A trailing ` # comment`, white space and a `#`, is stripped from values; a
//!   `#` without white space before it belongs to the value.
//! - Of several lines with the same key the last one counts.
//! - Unknown keys are ignored.
//! - A line without `=` that is neither blank nor a comment is an error, and so
//!   are empty keys, empty values and values that are not valid for their key.

use vstd::prelude::*;
use vstd::slice::{slice_subrange, slice_to_vec};
use vstd::utf8::*;

use crate::monitor::hex_pairs;
use crate::net::{
    ipv4_of, ipv6_of, socket_of, socket_v4, socket_v6, Ipv4Addr, Ipv6Addr, SocketAddr,
};
use crate::number::{at_most, decimal, hex_char, push_decimal, read_unsigned, signed_numeral};
use crate::text::{
    chars_of, debug_char, debug_text, first_index, index_of, is_whitespace, lemma_split_some,
    lowercase, lowered, push_str, quoted, quoted_char, same_text, split, split_on, string_of,
    trim, trim_end, trimmed, trimmed_end, views, whitespace,
};

verus! {

// ---------------------------------------------------------------------------
// DUIDs in base sixteen
// ---------------------------------------------------------------------------

/// Why a text is not the hex form of a DUID.
#[derive(Debug, Clone, Copy, PartialEq, Eq, Structural)]
pub enum DuidError {
    /// A byte that is neither a hex digit nor a separator.
    InvalidHex(u8),
    /// An odd number of digits, or none.
    OddLength,
}

/// Whether a byte separates hex digits.
pub open spec fn is_separator(b: u8) -> bool {
    b == 0x3a || b == 0x2d || b == 0x20 || b == 0x09
}

/// The value of a hex digit.
pub open spec fn nibble_of(b: u8) -> Option<u8> {
    if 0x30 <= b <= 0x39 {
        Some((b - 0x30) as u8)
    } else if 0x61 <= b <= 0x66 {
        Some((b - 0x61 + 10) as u8)
    } else if 0x41 <= b <= 0x46 {
        Some((b - 0x41 + 10) as u8)
    } else {
        None
    }
}

/// The values of the hex digits of `s`, or the first byte that is neither a
/// digit nor a separator.
pub open spec fn nibbles_of(s: Seq<u8>) -> Result<Seq<u8>, u8>
    decreases s.len(),
{
    if s.len() == 0 {
        Ok(Seq::empty())
    } else {
        match nibbles_of(s.drop_last()) {
            Err(b) => Err(b),
            Ok(n) => if is_separator(s.last()) {
                Ok(n)
            } else {
                match nibble_of(s.last()) {
                    Some(v) => Ok(n.push(v)),
                    None => Err(s.last()),
                }
            },
        }
    }
}

/// The bytes that pairs of nibbles write.
pub open spec fn paired(n: Seq<u8>) -> Seq<u8> {
    Seq::new((n.len() / 2) as nat, |i: int| (n[2 * i] * 16 + n[2 * i + 1]) as u8)
}

/// The DUID that `s` spells.
pub open spec fn duid_of(s: Seq<u8>) -> Result<Seq<u8>, DuidError> {
    match nibbles_of(s) {
        Err(b) => Err(DuidError::InvalidHex(b)),
        Ok(n) => if n.len() % 2 != 0 || n.len() == 0 {
            Err(DuidError::OddLength)
        } else {
            Ok(paired(n))
        },
    }
}

fn hex_val(b: u8) -> (r: Option<u8>)
    ensures
        r == nibble_of(b),
        r matches Some(v) ==> v < 16,
{
    if 0x30 <= b && b <= 0x39 {
        Some(b - 0x30)
    } else if 0x61 <= b && b <= 0x66 {
        Some(b - 0x61 + 10)
    } else if 0x41 <= b && b <= 0x46 {
        Some(b - 0x41 + 10)
    } else {
        None
    }
}

proof fn lemma_nibbles_error_stays(s: Seq<u8>, i: int)
    requires
        0 <= i <= s.len(),
        nibbles_of(s.take(i)) is Err,
    ensures
        nibbles_of(s) == nibbles_of(s.take(i)),
    decreases s.len() - i,
{
    if i < s.len() {
        assert(s.take(i + 1).drop_last() =~= s.take(i));
        lemma_nibbles_error_stays(s, i + 1);
    } else {
        assert(s.take(i) =~= s);
    }
}

/// Reads the hex form of a DUID.
pub fn read_duid(bytes: &[u8]) -> (r: Result<Vec<u8>, DuidError>)
    ensures
        match r {
            Ok(d) => duid_of(bytes@) == Ok::<Seq<u8>, DuidError>(d@),
            Err(e) => duid_of(bytes@) == Err::<Seq<u8>, DuidError>(e),
        },
{
    let mut out: Vec<u8> = Vec::new();
    let mut hi: Option<u8> = None;
    let mut i: usize = 0;
    assert(bytes@.take(0) =~= Seq::<u8>::empty());
    let ghost mut n: Seq<u8> = Seq::empty();
    assert(paired(n) =~= out@);
    while i < bytes.len()
        invariant
            i <= bytes@.len(),
            nibbles_of(bytes@.take(i as int)) == Ok::<Seq<u8>, u8>(n),
            forall|j: int| 0 <= j < n.len() ==> #[trigger] n[j] < 16,
            hi is Some <==> n.len() % 2 == 1,
            hi matches Some(h) ==> h == n.last(),
            out@ == paired(n),
        decreases bytes@.len() - i,
    {
        let c = bytes[i];
        let ghost before = n;
        assert(bytes@.take(i + 1).drop_last() =~= bytes@.take(i as int));
        i = i + 1;
        if c == 0x3a || c == 0x2d || c == 0x20 || c == 0x09 {
            continue;
        }
        match hex_val(c) {
            None => {
                proof {
                    lemma_nibbles_error_stays(bytes@, i as int);
                }
                return Err(DuidError::InvalidHex(c));
            },
            Some(v) => {
                proof {
                    n = before.push(v);
                }
                match hi {
                    Some(h) => {
                        out.push(h * 16 + v);
                        hi = None;
                        assert(out@ =~= paired(n));
                    },
                    None => {
                        hi = Some(v);
                        assert(out@ =~= paired(n));
                    },
                }
            },
        }
    }
    assert(bytes@.take(i as int) =~= bytes@);
    if hi.is_some() || out.len() == 0 {
        return Err(DuidError::OddLength);
    }
    Ok(out)
}

/// The text of an error about `s`, given `s` and the offending character in
/// quotes.
pub open spec fn duid_error_text(
    e: DuidError,
    quoted_s: Seq<char>,
    quoted_c: Seq<char>,
) -> Seq<char> {
    match e {
        DuidError::InvalidHex(_) => "invalid hex "@ + quoted_s + ": "@ + quoted_c,
        DuidError::OddLength => "odd-length hex: "@ + quoted_s,
    }
}

impl DuidError {
    /// The text of the error, given the DUID and the offending character in
    /// quotes.
    pub fn message(&self, quoted_s: &str, quoted_c: &str) -> (r: String)
        ensures
            r@ == duid_error_text(*self, quoted_s@, quoted_c@),
    {
        let mut r = String::new();
        match self {
            DuidError::InvalidHex(_) => {
                push_str(&mut r, "invalid hex ");
                push_str(&mut r, quoted_s);
                push_str(&mut r, ": ");
                push_str(&mut r, quoted_c);
            },
            DuidError::OddLength => {
                push_str(&mut r, "odd-length hex: ");
                push_str(&mut r, quoted_s);
            },
        }
        assert(r@ =~= duid_error_text(*self, quoted_s@, quoted_c@));
        r
    }

    /// The character that is no hex digit; `0` where that is not the trouble.
    pub open spec fn culprit(self) -> char {
        match self {
            DuidError::InvalidHex(b) => b as char,
            DuidError::OddLength => '0',
        }
    }
}

/// Reads opaque hex bytes: `00:03:00:01`, `00-03-00-01` or `00030001`, also
/// with white space between bytes.
pub fn parse_duid_hex(s: &str) -> (r: Result<Vec<u8>, String>)
    ensures
        match r {
            Ok(d) => duid_of(encode_utf8(s@)) == Ok::<Seq<u8>, DuidError>(d@),
            Err(text) => duid_of(encode_utf8(s@)) matches Err(e) && text@ == duid_error_text(
                e,
                debug_text(s@),
                debug_char(e.culprit()),
            ),
        },
{
    match read_duid(s.as_bytes()) {
        Ok(d) => Ok(d),
        Err(e) => {
            let quoted_s = quoted(s);
            let text = match e {
                DuidError::InvalidHex(b) => {
                    let quoted_c = quoted_char(b as char);
                    e.message(quoted_s.as_str(), quoted_c.as_str())
                },
                DuidError::OddLength => e.message(quoted_s.as_str(), ""),
            };
            Err(text)
        },
    }
}

proof fn lemma_hex_char(d: nat)
    requires
        d < 16,
    ensures
        hex_char(d) <= '\u{7f}',
        !is_separator(hex_char(d) as u8),
        nibble_of(hex_char(d) as u8) == Some(d as u8),
{
}

proof fn lemma_hex_pairs_ascii(a: Seq<u8>)
    ensures
        is_ascii_chars(hex_pairs(a)),
    decreases a.len(),
{
    if a.len() > 0 {
        lemma_hex_char((a.last() / 16) as nat);
        lemma_hex_char((a.last() % 16) as nat);
        if a.len() > 1 {
            lemma_hex_pairs_ascii(a.drop_last());
        }
    }
}

proof fn lemma_hex_pair_nibbles(s: Seq<u8>, n: Seq<u8>, b: u8)
    requires
        nibbles_of(s) == Ok::<Seq<u8>, u8>(n),
    ensures
        nibbles_of(
            s.push(hex_char((b / 16) as nat) as u8).push(hex_char((b % 16) as nat) as u8),
        ) == Ok::<Seq<u8>, u8>(n.push(b / 16).push(b % 16)),
{
    let one = s.push(hex_char((b / 16) as nat) as u8);
    let two = one.push(hex_char((b % 16) as nat) as u8);
    lemma_hex_char((b / 16) as nat);
    lemma_hex_char((b % 16) as nat);
    assert(one.drop_last() =~= s);
    assert(two.drop_last() =~= one);
    assert(nibbles_of(one) == Ok::<Seq<u8>, u8>(n.push(b / 16)));
}

/// The nibbles of the bytes of `a`.
spec fn halves(a: Seq<u8>) -> Seq<u8> {
    Seq::new(
        2 * a.len(),
        |i: int|
            if i % 2 == 0 {
                a[i / 2] / 16
            } else {
                a[i / 2] % 16
            },
    )
}

proof fn lemma_hex_pairs_nibbles(a: Seq<u8>)
    ensures
        nibbles_of(encode_utf8(hex_pairs(a))) == Ok::<Seq<u8>, u8>(halves(a)),
    decreases a.len(),
{
    let e = encode_utf8(hex_pairs(a));
    lemma_hex_pairs_ascii(a);
    is_ascii_chars_encode_utf8(hex_pairs(a));
    if a.len() == 0 {
        assert(halves(a) =~= Seq::empty());
    } else {
        let front = a.drop_last();
        let high = hex_char((a.last() / 16) as nat) as u8;
        let low = hex_char((a.last() % 16) as nat) as u8;
        let s = encode_utf8(hex_pairs(front));
        lemma_hex_pairs_ascii(front);
        is_ascii_chars_encode_utf8(hex_pairs(front));
        lemma_hex_pairs_nibbles(front);
        assert(halves(a) =~= halves(front).push(a.last() / 16).push(a.last() % 16));
        if a.len() == 1 {
            assert(e =~= s.push(high).push(low));
            lemma_hex_pair_nibbles(s, halves(front), a.last());
        } else {
            let colon = s.push(0x3a);
            assert(colon.drop_last() =~= s);
            assert(e =~= colon.push(high).push(low));
            lemma_hex_pair_nibbles(colon, halves(front), a.last());
        }
    }
}

/// Bytes that are written as hex pairs with colons between them, as machine
/// addresses are, read back as the same bytes.
pub proof fn hex_pairs_read_back(a: Seq<u8>)
    requires
        a.len() > 0,
    ensures
        duid_of(encode_utf8(hex_pairs(a))) == Ok::<Seq<u8>, DuidError>(a),
{
    lemma_hex_pairs_nibbles(a);
    assert forall|i: int| 0 <= i < a.len() implies #[trigger] paired(halves(a))[i] == a[i] by {
        assert(halves(a)[2 * i] == a[i] / 16);
        assert(halves(a)[2 * i + 1] == a[i] % 16);
    }
    assert(paired(halves(a)) =~= a);
}

// ---------------------------------------------------------------------------
// Values
// ---------------------------------------------------------------------------

/// The truth value that a word in lower case stands for.
pub open spec fn truth_of(word: Seq<char>) -> Option<bool> {
    if word == "true"@ || word == "yes"@ || word == "on"@ || word == "1"@ {
        Some(true)
    } else if word == "false"@ || word == "no"@ || word == "off"@ || word == "0"@ {
        Some(false)
    } else {
        None
    }
}

/// The truth value that a word in lower case stands for.
pub fn truth_of_word(word: &str) -> (r: Option<bool>)
    ensures
        r == truth_of(word@),
{
    let w = chars_of(word);
    let w = w.as_slice();
    if same_text(w, "true") || same_text(w, "yes") || same_text(w, "on") || same_text(w, "1") {
        Some(true)
    } else if same_text(w, "false") || same_text(w, "no") || same_text(w, "off") || same_text(
        w,
        "0",
    ) {
        Some(false)
    } else {
        None
    }
}

/// The truth value that a word stands for, in upper or lower case.
pub fn parse_bool(s: &str) -> (r: Option<bool>)
    ensures
        r == truth_of(lowercase(s@)),
{
    let word = lowered(s);
    truth_of_word(word.as_str())
}

/// The addresses that the pieces spell, white space around them aside; none
/// where one of them spells no address.
pub open spec fn ipv4s_of(pieces: Seq<Seq<char>>) -> Option<Seq<Ipv4Addr>>
    decreases pieces.len(),
{
    if pieces.len() == 0 {
        Some(Seq::empty())
    } else {
        match (ipv4s_of(pieces.drop_last()), ipv4_of(trim(pieces.last()))) {
            (Some(list), Some(a)) => Some(list.push(a)),
            _ => None,
        }
    }
}

/// The addresses that the pieces spell, white space around them aside; none
/// where one of them spells no address.
pub open spec fn ipv6s_of(pieces: Seq<Seq<char>>) -> Option<Seq<Ipv6Addr>>
    decreases pieces.len(),
{
    if pieces.len() == 0 {
        Some(Seq::empty())
    } else {
        match (ipv6s_of(pieces.drop_last()), ipv6_of(trim(pieces.last()))) {
            (Some(list), Some(a)) => Some(list.push(a)),
            _ => None,
        }
    }
}

proof fn lemma_ipv4s_len(pieces: Seq<Seq<char>>)
    ensures
        ipv4s_of(pieces) matches Some(list) ==> list.len() == pieces.len(),
    decreases pieces.len(),
{
    if pieces.len() > 0 {
        lemma_ipv4s_len(pieces.drop_last());
    }
}

proof fn lemma_ipv4s_prefix(pieces: Seq<Seq<char>>, i: int)
    requires
        0 <= i <= pieces.len(),
        ipv4s_of(pieces.take(i)) is None,
    ensures
        ipv4s_of(pieces) is None,
    decreases pieces.len() - i,
{
    if i < pieces.len() {
        assert(pieces.take(i + 1).drop_last() =~= pieces.take(i));
        lemma_ipv4s_prefix(pieces, i + 1);
    } else {
        assert(pieces.take(i) =~= pieces);
    }
}

proof fn lemma_ipv6s_prefix(pieces: Seq<Seq<char>>, i: int)
    requires
        0 <= i <= pieces.len(),
        ipv6s_of(pieces.take(i)) is None,
    ensures
        ipv6s_of(pieces) is None,
    decreases pieces.len() - i,
{
    if i < pieces.len() {
        assert(pieces.take(i + 1).drop_last() =~= pieces.take(i));
        lemma_ipv6s_prefix(pieces, i + 1);
    } else {
        assert(pieces.take(i) =~= pieces);
    }
}

/// Reads IPv4 addresses separated by commas.
pub fn parse_ipv4_list(s: &[char]) -> (r: Option<Vec<Ipv4Addr>>)
    ensures
        match r {
            Some(list) => ipv4s_of(split_on(s@, ',')) == Some(list@) && list@.len() > 0,
            None => ipv4s_of(split_on(s@, ',')) is None,
        },
{
    let pieces = split(s, ',');
    let ghost texts = split_on(s@, ',');
    assert(texts == views(pieces@));
    let mut list: Vec<Ipv4Addr> = Vec::new();
    let mut i: usize = 0;
    while i < pieces.len()
        invariant
            i <= pieces@.len(),
            list@.len() == i,
            texts == views(pieces@),
            texts == split_on(s@, ','),
            ipv4s_of(texts.take(i as int)) == Some(list@),
        decreases pieces@.len() - i,
    {
        assert(texts.take(i + 1).drop_last() =~= texts.take(i as int));
        assert(texts[i as int] == pieces@[i as int]@);
        match Ipv4Addr::parse(trimmed(pieces[i].as_slice())) {
            Some(a) => list.push(a),
            None => {
                proof {
                    lemma_ipv4s_prefix(texts, i + 1);
                }
                return None;
            },
        }
        i = i + 1;
    }
    assert(texts.take(i as int) =~= texts);
    Some(list)
}

/// Reads IPv6 addresses separated by commas.
pub fn parse_ipv6_list(s: &[char]) -> (r: Option<Vec<Ipv6Addr>>)
    ensures
        match r {
            Some(list) => ipv6s_of(split_on(s@, ',')) == Some(list@),
            None => ipv6s_of(split_on(s@, ',')) is None,
        },
{
    let pieces = split(s, ',');
    let ghost texts = split_on(s@, ',');
    assert(texts == views(pieces@));
    let mut list: Vec<Ipv6Addr> = Vec::new();
    let mut i: usize = 0;
    while i < pieces.len()
        invariant
            i <= pieces@.len(),
            texts == views(pieces@),
            texts == split_on(s@, ','),
            ipv6s_of(texts.take(i as int)) == Some(list@),
        decreases pieces@.len() - i,
    {
        assert(texts.take(i + 1).drop_last() =~= texts.take(i as int));
        assert(texts[i as int] == pieces@[i as int]@);
        match Ipv6Addr::parse(trimmed(pieces[i].as_slice())) {
            Some(a) => list.push(a),
            None => {
                proof {
                    lemma_ipv6s_prefix(texts, i + 1);
                }
                return None;
            },
        }
        i = i + 1;
    }
    assert(texts.take(i as int) =~= texts);
    Some(list)
}

// ---------------------------------------------------------------------------
// Errors
// ---------------------------------------------------------------------------

/// Why a configuration is not accepted.
#[derive(Debug)]
pub enum ConfigError {
    /// A line that is no assignment.
    NotAnAssignment { line: usize, got: String },
    EmptyKey { line: usize },
    EmptyValue { line: usize, key: String },
    /// A value that is not what its key asks for.
    InvalidValue { line: usize, what: &'static str, key: String, value: String },
    /// The server DUID is empty or too long.
    DuidLength,
    /// The IPv4 pool runs past the last address.
    Ipv4Overflow,
    /// The IPv6 pool runs past the last address.
    Ipv6Overflow,
}

/// What an error says.
pub enum ConfigErrorView {
    NotAnAssignment { line: nat, got: Seq<char> },
    EmptyKey { line: nat },
    EmptyValue { line: nat, key: Seq<char> },
    InvalidValue { line: nat, what: Seq<char>, key: Seq<char>, value: Seq<char> },
    DuidLength,
    Ipv4Overflow,
    Ipv6Overflow,
}

impl View for ConfigError {
    type V = ConfigErrorView;

    open spec fn view(&self) -> ConfigErrorView {
        match self {
            ConfigError::NotAnAssignment { line, got } => ConfigErrorView::NotAnAssignment {
                line: *line as nat,
                got: got@,
            },
            ConfigError::EmptyKey { line } => ConfigErrorView::EmptyKey { line: *line as nat },
            ConfigError::EmptyValue { line, key } => ConfigErrorView::EmptyValue {
                line: *line as nat,
                key: key@,
            },
            ConfigError::InvalidValue { line, what, key, value } => ConfigErrorView::InvalidValue {
                line: *line as nat,
                what: what@,
                key: key@,
                value: value@,
            },
            ConfigError::DuidLength => ConfigErrorView::DuidLength,
            ConfigError::Ipv4Overflow => ConfigErrorView::Ipv4Overflow,
            ConfigError::Ipv6Overflow => ConfigErrorView::Ipv6Overflow,
        }
    }
}

impl ConfigErrorView {
    /// The text of the error, given its two texts in quotes: the line or the
    /// key first, the value second.
    pub open spec fn text(self, first: Seq<char>, second: Seq<char>) -> Seq<char> {
        match self {
            ConfigErrorView::NotAnAssignment { line, .. } => decimal(line)
                + ": expected `key = value`, got "@ + first,
            ConfigErrorView::EmptyKey { line } => decimal(line) + ": empty key"@,
            ConfigErrorView::EmptyValue { line, .. } => decimal(line) + ": empty value for key "@
                + first,
            ConfigErrorView::InvalidValue { line, what, .. } => decimal(line) + ": invalid "@ + what
                + " for key "@ + first + ": "@ + second,
            ConfigErrorView::DuidLength => "server_duid must be 1..=128 bytes"@,
            ConfigErrorView::Ipv4Overflow => "ip_start + lease_num overflows IPv4 space"@,
            ConfigErrorView::Ipv6Overflow => "ipv6_start + ipv6_lease_num overflows IPv6 space"@,
        }
    }

    /// The line or the key that the error is about.
    pub open spec fn first(self) -> Seq<char> {
        match self {
            ConfigErrorView::NotAnAssignment { got, .. } => got,
            ConfigErrorView::EmptyValue { key, .. } => key,
            ConfigErrorView::InvalidValue { key, .. } => key,
            _ => Seq::empty(),
        }
    }

    /// The value that the error is about.
    pub open spec fn second(self) -> Seq<char> {
        match self {
            ConfigErrorView::InvalidValue { value, .. } => value,
            _ => Seq::empty(),
        }
    }
}

impl ConfigError {
    /// The text of the error, given its two texts in quotes.
    pub fn message_with(&self, first: &str, second: &str) -> (r: String)
        ensures
            r@ == self@.text(first@, second@),
    {
        let mut r = String::new();
        match self {
            ConfigError::NotAnAssignment { line, .. } => {
                push_decimal(&mut r, *line as u64);
                push_str(&mut r, ": expected `key = value`, got ");
                push_str(&mut r, first);
            },
            ConfigError::EmptyKey { line } => {
                push_decimal(&mut r, *line as u64);
                push_str(&mut r, ": empty key");
            },
            ConfigError::EmptyValue { line, .. } => {
                push_decimal(&mut r, *line as u64);
                push_str(&mut r, ": empty value for key ");
                push_str(&mut r, first);
            },
            ConfigError::InvalidValue { line, what, .. } => {
                push_decimal(&mut r, *line as u64);
                push_str(&mut r, ": invalid ");
                push_str(&mut r, what);
                push_str(&mut r, " for key ");
                push_str(&mut r, first);
                push_str(&mut r, ": ");
                push_str(&mut r, second);
            },
            ConfigError::DuidLength => push_str(&mut r, "server_duid must be 1..=128 bytes"),
            ConfigError::Ipv4Overflow => push_str(
                &mut r,
                "ip_start + lease_num overflows IPv4 space",
            ),
            ConfigError::Ipv6Overflow => push_str(
                &mut r,
                "ipv6_start + ipv6_lease_num overflows IPv6 space",
            ),
        }
        assert(r@ =~= self@.text(first@, second@));
        r
    }

    /// The text of the error.
    pub fn message(&self) -> (r: String)
        ensures
            r@ == self@.text(debug_text(self@.first()), debug_text(self@.second())),
    {
        match self {
            ConfigError::NotAnAssignment { got, .. } => {
                let first = quoted(got.as_str());
                self.message_with(first.as_str(), "")
            },
            ConfigError::EmptyValue { key, .. } => {
                let first = quoted(key.as_str());
                self.message_with(first.as_str(), "")
            },
            ConfigError::InvalidValue { key, value, .. } => {
                let first = quoted(key.as_str());
                let second = quoted(value.as_str());
                self.message_with(first.as_str(), second.as_str())
            },
            _ => self.message_with("", ""),
        }
    }
}

// ---------------------------------------------------------------------------
// Settings
// ---------------------------------------------------------------------------

/// All settings of the server.
#[derive(Debug, Clone, PartialEq)]
pub struct Config {
    pub server_ip: Ipv4Addr,
    pub ip_start: Ipv4Addr,
    pub lease_num: u32,
    pub subnet_mask: Ipv4Addr,
    pub router_ip: Ipv4Addr,
    pub dns_ips: Vec<Ipv4Addr>,
    /// Whether time servers are announced (option 42).
    pub enable_ntp: bool,
    pub ntp_ips: Vec<Ipv4Addr>,
    /// Whether a client that asks for rapid commit is answered at once
    /// (RFC 4039, RFC 8415).
    pub enable_rapid_commit: bool,
    pub broadcast_ip: Ipv4Addr,
    /// Further destinations of broadcast replies.
    pub extra_broadcast_ips: Vec<Ipv4Addr>,
    pub lease_duration_secs: u32,
    pub leases_file: String,
    pub listen_addr: SocketAddr,
    pub enable_dhcpv6: bool,
    pub server_duid: Vec<u8>,
    pub ipv6_start: Ipv6Addr,
    pub ipv6_lease_num: u64,
    pub ipv6_dns: Vec<Ipv6Addr>,
    pub ipv6_lease_duration_secs: u32,
    pub leases_file_v6: String,
    pub listen_addr_v6: SocketAddr,
}

/// What the settings say.
pub struct ConfigView {
    pub server_ip: Ipv4Addr,
    pub ip_start: Ipv4Addr,
    pub lease_num: u32,
    pub subnet_mask: Ipv4Addr,
    pub router_ip: Ipv4Addr,
    pub dns_ips: Seq<Ipv4Addr>,
    pub enable_ntp: bool,
    pub ntp_ips: Seq<Ipv4Addr>,
    pub enable_rapid_commit: bool,
    pub broadcast_ip: Ipv4Addr,
    pub extra_broadcast_ips: Seq<Ipv4Addr>,
    pub lease_duration_secs: u32,
    pub leases_file: Seq<char>,
    pub listen_addr: SocketAddr,
    pub enable_dhcpv6: bool,
    pub server_duid: Seq<u8>,
    pub ipv6_start: Ipv6Addr,
    pub ipv6_lease_num: u64,
    pub ipv6_dns: Seq<Ipv6Addr>,
    pub ipv6_lease_duration_secs: u32,
    pub leases_file_v6: Seq<char>,
    pub listen_addr_v6: SocketAddr,
}

impl View for Config {
    type V = ConfigView;

    open spec fn view(&self) -> ConfigView {
        ConfigView {
            server_ip: self.server_ip,
            ip_start: self.ip_start,
            lease_num: self.lease_num,
            subnet_mask: self.subnet_mask,
            router_ip: self.router_ip,
            dns_ips: self.dns_ips@,
            enable_ntp: self.enable_ntp,
            ntp_ips: self.ntp_ips@,
            enable_rapid_commit: self.enable_rapid_commit,
            broadcast_ip: self.broadcast_ip,
            extra_broadcast_ips: self.extra_broadcast_ips@,
            lease_duration_secs: self.lease_duration_secs,
            leases_file: self.leases_file@,
            listen_addr: self.listen_addr,
            enable_dhcpv6: self.enable_dhcpv6,
            server_duid: self.server_duid@,
            ipv6_start: self.ipv6_start,
            ipv6_lease_num: self.ipv6_lease_num,
            ipv6_dns: self.ipv6_dns@,
            ipv6_lease_duration_secs: self.ipv6_lease_duration_secs,
            leases_file_v6: self.leases_file_v6@,
            listen_addr_v6: self.listen_addr_v6,
        }
    }
}

/// The settings that hold where the file says nothing.
pub open spec fn default_settings() -> ConfigView {
    ConfigView {
        server_ip: Ipv4Addr { bits: 0xc0a8_0201 },
        ip_start: Ipv4Addr { bits: 0xc0a8_0202 },
        lease_num: 252,
        subnet_mask: Ipv4Addr { bits: 0xffff_ff00 },
        router_ip: Ipv4Addr { bits: 0xc0a8_0201 },
        dns_ips: seq![Ipv4Addr { bits: 0x0808_0808 }],
        enable_ntp: false,
        ntp_ips: Seq::empty(),
        enable_rapid_commit: false,
        broadcast_ip: Ipv4Addr { bits: 0xc0a8_02ff },
        extra_broadcast_ips: Seq::empty(),
        lease_duration_secs: 86400,
        leases_file: "leases"@,
        listen_addr: socket_v4(Ipv4Addr { bits: 0 }, 67),
        enable_dhcpv6: false,
        server_duid: seq![0x00, 0x03, 0x00, 0x01, 0x02, 0x00, 0x5e, 0xaa, 0xbb, 0xcc],
        ipv6_start: Ipv6Addr { bits: 0xfd00_0000_0000_0000_0000_0000_0000_0100 },
        ipv6_lease_num: 1000,
        ipv6_dns: seq![Ipv6Addr { bits: 0x2001_4860_4860_0000_0000_0000_0000_8888 }],
        ipv6_lease_duration_secs: 86400,
        leases_file_v6: "leases6"@,
        listen_addr_v6: socket_v6(Ipv6Addr { bits: 0 }, 547, 0),
    }
}

/// The broadcast destinations: the primary one first, none twice.
pub open spec fn broadcasts_of(primary: Ipv4Addr, extras: Seq<Ipv4Addr>) -> Seq<Ipv4Addr>
    decreases extras.len(),
{
    if extras.len() == 0 {
        seq![primary]
    } else {
        let before = broadcasts_of(primary, extras.drop_last());
        if before.contains(extras.last()) {
            before
        } else {
            before.push(extras.last())
        }
    }
}

fn contains_addr(list: &[Ipv4Addr], a: Ipv4Addr) -> (r: bool)
    ensures
        r == list@.contains(a),
{
    let mut i: usize = 0;
    while i < list.len()
        invariant
            i <= list@.len(),
            forall|j: int| 0 <= j < i ==> #[trigger] list@[j] != a,
        decreases list@.len() - i,
    {
        if list[i] == a {
            return true;
        }
        i = i + 1;
    }
    false
}

/// The keys that the file can set.
#[derive(Debug, Clone, Copy, PartialEq, Eq, Structural)]
pub enum Key {
    ServerIp,
    IpStart,
    LeaseNum,
    SubnetMask,
    RouterIp,
    DnsIps,
    EnableNtp,
    NtpIps,
    EnableRapidCommit,
    BroadcastIp,
    ExtraBroadcastIps,
    LeaseDurationSecs,
    LeasesFile,
    ListenAddr,
    EnableDhcpv6,
    ServerDuid,
    Ipv6Start,
    Ipv6LeaseNum,
    Ipv6Dns,
    Ipv6LeaseDurationSecs,
    LeasesFileV6,
    ListenAddrV6,
    /// A key that nothing is known of.
    Unknown,
}

/// The key with the given name, which is in lower case.
pub open spec fn key_named(name: Seq<char>) -> Key {
    if name == "server_ip"@ {
        Key::ServerIp
    } else if name == "ip_start"@ {
        Key::IpStart
    } else if name == "lease_num"@ {
        Key::LeaseNum
    } else if name == "subnet_mask"@ {
        Key::SubnetMask
    } else if name == "router_ip"@ {
        Key::RouterIp
    } else if name == "dns_ips"@ {
        Key::DnsIps
    } else if name == "enable_ntp"@ {
        Key::EnableNtp
    } else if name == "ntp_ips"@ {
        Key::NtpIps
    } else if name == "enable_rapid_commit"@ {
        Key::EnableRapidCommit
    } else if name == "broadcast_ip"@ {
        Key::BroadcastIp
    } else if name == "extra_broadcast_ips"@ {
        Key::ExtraBroadcastIps
    } else if name == "lease_duration_secs"@ {
        Key::LeaseDurationSecs
    } else if name == "leases_file"@ {
        Key::LeasesFile
    } else if name == "listen_addr"@ {
        Key::ListenAddr
    } else if name == "enable_dhcpv6"@ {
        Key::EnableDhcpv6
    } else if name == "server_duid"@ {
        Key::ServerDuid
    } else if name == "ipv6_start"@ {
        Key::Ipv6Start
    } else if name == "ipv6_lease_num"@ {
        Key::Ipv6LeaseNum
    } else if name == "ipv6_dns"@ {
        Key::Ipv6Dns
    } else if name == "ipv6_lease_duration_secs"@ {
        Key::Ipv6LeaseDurationSecs
    } else if name == "leases_file_v6"@ {
        Key::LeasesFileV6
    } else if name == "listen_addr_v6"@ {
        Key::ListenAddrV6
    } else {
        Key::Unknown
    }
}

/// The key with the given name, which is in lower case.
pub fn key_of(name: &str) -> (r: Key)
    ensures
        r == key_named(name@),
{
    let chars = chars_of(name);
    let n = chars.as_slice();
    if same_text(n, "server_ip") {
        Key::ServerIp
    } else if same_text(n, "ip_start") {
        Key::IpStart
    } else if same_text(n, "lease_num") {
        Key::LeaseNum
    } else if same_text(n, "subnet_mask") {
        Key::SubnetMask
    } else if same_text(n, "router_ip") {
        Key::RouterIp
    } else if same_text(n, "dns_ips") {
        Key::DnsIps
    } else if same_text(n, "enable_ntp") {
        Key::EnableNtp
    } else if same_text(n, "ntp_ips") {
        Key::NtpIps
    } else if same_text(n, "enable_rapid_commit") {
        Key::EnableRapidCommit
    } else if same_text(n, "broadcast_ip") {
        Key::BroadcastIp
    } else if same_text(n, "extra_broadcast_ips") {
        Key::ExtraBroadcastIps
    } else if same_text(n, "lease_duration_secs") {
        Key::LeaseDurationSecs
    } else if same_text(n, "leases_file") {
        Key::LeasesFile
    } else if same_text(n, "listen_addr") {
        Key::ListenAddr
    } else if same_text(n, "enable_dhcpv6") {
        Key::EnableDhcpv6
    } else if same_text(n, "server_duid") {
        Key::ServerDuid
    } else if same_text(n, "ipv6_start") {
        Key::Ipv6Start
    } else if same_text(n, "ipv6_lease_num") {
        Key::Ipv6LeaseNum
    } else if same_text(n, "ipv6_dns") {
        Key::Ipv6Dns
    } else if same_text(n, "ipv6_lease_duration_secs") {
        Key::Ipv6LeaseDurationSecs
    } else if same_text(n, "leases_file_v6") {
        Key::LeasesFileV6
    } else if same_text(n, "listen_addr_v6") {
        Key::ListenAddrV6
    } else {
        Key::Unknown
    }
}

/// The kinds of values.
#[derive(Debug, Clone, Copy, PartialEq, Eq, Structural)]
pub enum Kind {
    Addr4,
    Addr6,
    Num32,
    Num64,
    List4,
    List6,
    Flag,
    Socket,
    Text,
    Duid,
}

/// A value of one of the kinds.
#[derive(Debug)]
pub enum Value {
    Addr4(Ipv4Addr),
    Addr6(Ipv6Addr),
    Num32(u32),
    Num64(u64),
    List4(Vec<Ipv4Addr>),
    List6(Vec<Ipv6Addr>),
    Flag(bool),
    Socket(SocketAddr),
    Text(String),
    Duid(Vec<u8>),
}

/// What a value says.
pub enum ValueView {
    Addr4(Ipv4Addr),
    Addr6(Ipv6Addr),
    Num32(u32),
    Num64(u64),
    List4(Seq<Ipv4Addr>),
    List6(Seq<Ipv6Addr>),
    Flag(bool),
    Socket(SocketAddr),
    Text(Seq<char>),
    Duid(Seq<u8>),
}

impl View for Value {
    type V = ValueView;

    open spec fn view(&self) -> ValueView {
        match self {
            Value::Addr4(v) => ValueView::Addr4(*v),
            Value::Addr6(v) => ValueView::Addr6(*v),
            Value::Num32(v) => ValueView::Num32(*v),
            Value::Num64(v) => ValueView::Num64(*v),
            Value::List4(v) => ValueView::List4(v@),
            Value::List6(v) => ValueView::List6(v@),
            Value::Flag(v) => ValueView::Flag(*v),
            Value::Socket(v) => ValueView::Socket(*v),
            Value::Text(v) => ValueView::Text(v@),
            Value::Duid(v) => ValueView::Duid(v@),
        }
    }
}

/// The value of the given kind that a text stands for, if there is one. A list
/// has at least one address.
pub open spec fn value_of(kind: Kind, text: Seq<char>) -> Option<ValueView> {
    match kind {
        Kind::Addr4 => match ipv4_of(text) {
            Some(a) => Some(ValueView::Addr4(a)),
            None => None,
        },
        Kind::Addr6 => match ipv6_of(text) {
            Some(a) => Some(ValueView::Addr6(a)),
            None => None,
        },
        Kind::Num32 => match at_most(signed_numeral(text, 10), 0xffff_ffff) {
            Some(n) => Some(ValueView::Num32(n as u32)),
            None => None,
        },
        Kind::Num64 => match at_most(signed_numeral(text, 10), 0xffff_ffff_ffff_ffff) {
            Some(n) => Some(ValueView::Num64(n as u64)),
            None => None,
        },
        Kind::List4 => match ipv4s_of(split_on(text, ',')) {
            Some(list) => Some(ValueView::List4(list)),
            None => None,
        },
        Kind::List6 => match ipv6s_of(split_on(text, ',')) {
            Some(list) => Some(ValueView::List6(list)),
            None => None,
        },
        Kind::Flag => match truth_of(lowercase(text)) {
            Some(b) => Some(ValueView::Flag(b)),
            None => None,
        },
        Kind::Socket => match socket_of(text) {
            Some(a) => Some(ValueView::Socket(a)),
            None => None,
        },
        Kind::Text => Some(ValueView::Text(text)),
        Kind::Duid => match duid_of(encode_utf8(text)) {
            Ok(d) => Some(ValueView::Duid(d)),
            Err(_) => None,
        },
    }
}

/// Reads a value of the given kind.
pub fn read_value(kind: Kind, text: &str) -> (r: Option<Value>)
    ensures
        match r {
            Some(v) => {
                &&& value_of(kind, text@) == Some(v@)
                &&& v@ matches ValueView::List4(list) ==> list.len() > 0
            },
            None => value_of(kind, text@) is None,
        },
{
    let chars = chars_of(text);
    let v = chars.as_slice();
    match kind {
        Kind::Addr4 => match Ipv4Addr::parse(v) {
            Some(a) => Some(Value::Addr4(a)),
            None => None,
        },
        Kind::Addr6 => match Ipv6Addr::parse(v) {
            Some(a) => Some(Value::Addr6(a)),
            None => None,
        },
        Kind::Num32 => match read_unsigned(v, 10, 0xffff_ffff) {
            Some(n) => Some(Value::Num32(n as u32)),
            None => None,
        },
        Kind::Num64 => match read_unsigned(v, 10, 0xffff_ffff_ffff_ffff) {
            Some(n) => Some(Value::Num64(n)),
            None => None,
        },
        Kind::List4 => match parse_ipv4_list(v) {
            Some(list) => Some(Value::List4(list)),
            None => None,
        },
        Kind::List6 => match parse_ipv6_list(v) {
            Some(list) => Some(Value::List6(list)),
            None => None,
        },
        Kind::Flag => match parse_bool(text) {
            Some(b) => Some(Value::Flag(b)),
            None => None,
        },
        Kind::Socket => match SocketAddr::parse(v) {
            Some(a) => Some(Value::Socket(a)),
            None => None,
        },
        Kind::Text => Some(Value::Text(text.to_owned())),
        Kind::Duid => match read_duid(text.as_bytes()) {
            Ok(d) => Some(Value::Duid(d)),
            Err(_) => None,
        },
    }
}

/// The kind of value that a key takes; none for a key that is not known.
pub open spec fn kind_for(key: Key) -> Option<Kind> {
    match key {
        Key::ServerIp => Some(Kind::Addr4),
        Key::IpStart => Some(Kind::Addr4),
        Key::LeaseNum => Some(Kind::Num32),
        Key::SubnetMask => Some(Kind::Addr4),
        Key::RouterIp => Some(Kind::Addr4),
        Key::DnsIps => Some(Kind::List4),
        Key::EnableNtp => Some(Kind::Flag),
        Key::NtpIps => Some(Kind::List4),
        Key::EnableRapidCommit => Some(Kind::Flag),
        Key::BroadcastIp => Some(Kind::List4),
        Key::ExtraBroadcastIps => Some(Kind::List4),
        Key::LeaseDurationSecs => Some(Kind::Num32),
        Key::LeasesFile => Some(Kind::Text),
        Key::ListenAddr => Some(Kind::Socket),
        Key::EnableDhcpv6 => Some(Kind::Flag),
        Key::ServerDuid => Some(Kind::Duid),
        Key::Ipv6Start => Some(Kind::Addr6),
        Key::Ipv6LeaseNum => Some(Kind::Num64),
        Key::Ipv6Dns => Some(Kind::List6),
        Key::Ipv6LeaseDurationSecs => Some(Kind::Num32),
        Key::LeasesFileV6 => Some(Kind::Text),
        Key::ListenAddrV6 => Some(Kind::Socket),
        Key::Unknown => None,
    }
}

/// The kind of value that a key takes; none for a key that is not known.
pub fn kind_of(key: Key) -> (r: Option<Kind>)
    ensures
        r == kind_for(key),
{
    match key {
        Key::ServerIp => Some(Kind::Addr4),
        Key::IpStart => Some(Kind::Addr4),
        Key::LeaseNum => Some(Kind::Num32),
        Key::SubnetMask => Some(Kind::Addr4),
        Key::RouterIp => Some(Kind::Addr4),
        Key::DnsIps => Some(Kind::List4),
        Key::EnableNtp => Some(Kind::Flag),
        Key::NtpIps => Some(Kind::List4),
        Key::EnableRapidCommit => Some(Kind::Flag),
        Key::BroadcastIp => Some(Kind::List4),
        Key::ExtraBroadcastIps => Some(Kind::List4),
        Key::LeaseDurationSecs => Some(Kind::Num32),
        Key::LeasesFile => Some(Kind::Text),
        Key::ListenAddr => Some(Kind::Socket),
        Key::EnableDhcpv6 => Some(Kind::Flag),
        Key::ServerDuid => Some(Kind::Duid),
        Key::Ipv6Start => Some(Kind::Addr6),
        Key::Ipv6LeaseNum => Some(Kind::Num64),
        Key::Ipv6Dns => Some(Kind::List6),
        Key::Ipv6LeaseDurationSecs => Some(Kind::Num32),
        Key::LeasesFileV6 => Some(Kind::Text),
        Key::ListenAddrV6 => Some(Kind::Socket),
        Key::Unknown => None,
    }
}

/// What a value should have been. A broadcast address may be a list, but is
/// spoken of as an address.
pub open spec fn expected(key: Key, kind: Kind) -> Seq<char> {
    if key == Key::BroadcastIp {
        "IPv4 address"@
    } else {
        match kind {
            Kind::Addr4 => "IPv4 address"@,
            Kind::Addr6 => "IPv6 address"@,
            Kind::Num32 => "u32"@,
            Kind::Num64 => "u64"@,
            Kind::List4 => "IPv4 list"@,
            Kind::List6 => "IPv6 list"@,
            Kind::Flag => "bool"@,
            Kind::Socket => "socket address"@,
            Kind::Text => "text"@,
            Kind::Duid => "DUID hex"@,
        }
    }
}

fn expectation(key: Key, kind: Kind) -> (r: &'static str)
    ensures
        r@ == expected(key, kind),
{
    if key == Key::BroadcastIp {
        "IPv4 address"
    } else {
        match kind {
            Kind::Addr4 => "IPv4 address",
            Kind::Addr6 => "IPv6 address",
            Kind::Num32 => "u32",
            Kind::Num64 => "u64",
            Kind::List4 => "IPv4 list",
            Kind::List6 => "IPv6 list",
            Kind::Flag => "bool",
            Kind::Socket => "socket address",
            Kind::Text => "text",
            Kind::Duid => "DUID hex",
        }
    }
}

/// What the lines of a file have said so far. What the last `broadcast_ip`
/// line and the last `extra_broadcast_ips` line gave is kept apart.
pub struct Draft {
    /// The settings, but for the further broadcast destinations.
    pub settings: Config,
    /// The addresses behind the first one of the last `broadcast_ip` line.
    pub listed: Vec<Ipv4Addr>,
    /// The addresses of the last `extra_broadcast_ips` line.
    pub extra: Vec<Ipv4Addr>,
    /// Whether the former line came after the latter.
    pub listed_last: bool,
}

/// What the lines of a file have said so far.
pub struct DraftView {
    pub settings: ConfigView,
    pub listed: Seq<Ipv4Addr>,
    pub extra: Seq<Ipv4Addr>,
    pub listed_last: bool,
}

impl View for Draft {
    type V = DraftView;

    open spec fn view(&self) -> DraftView {
        DraftView {
            settings: self.settings@,
            listed: self.listed@,
            extra: self.extra@,
            listed_last: self.listed_last,
        }
    }
}

/// What is said before the first line.
pub open spec fn blank_draft() -> DraftView {
    DraftView {
        settings: default_settings(),
        listed: Seq::empty(),
        extra: Seq::empty(),
        listed_last: false,
    }
}

impl DraftView {
    /// The settings. The further broadcast destinations are those of both
    /// lines, in the order of the lines.
    pub open spec fn finished(self) -> ConfigView {
        ConfigView {
            extra_broadcast_ips: if self.listed_last {
                self.extra + self.listed
            } else {
                self.listed + self.extra
            },
            ..self.settings
        }
    }

    /// What is said of a key; nothing of one that is not known.
    pub open spec fn value(self, key: Key) -> Option<ValueView> {
        let c = self.settings;
        match key {
            Key::ServerIp => Some(ValueView::Addr4(c.server_ip)),
            Key::IpStart => Some(ValueView::Addr4(c.ip_start)),
            Key::LeaseNum => Some(ValueView::Num32(c.lease_num)),
            Key::SubnetMask => Some(ValueView::Addr4(c.subnet_mask)),
            Key::RouterIp => Some(ValueView::Addr4(c.router_ip)),
            Key::DnsIps => Some(ValueView::List4(c.dns_ips)),
            Key::EnableNtp => Some(ValueView::Flag(c.enable_ntp)),
            Key::NtpIps => Some(ValueView::List4(c.ntp_ips)),
            Key::EnableRapidCommit => Some(ValueView::Flag(c.enable_rapid_commit)),
            Key::BroadcastIp => Some(ValueView::List4(seq![c.broadcast_ip] + self.listed)),
            Key::ExtraBroadcastIps => Some(ValueView::List4(self.extra)),
            Key::LeaseDurationSecs => Some(ValueView::Num32(c.lease_duration_secs)),
            Key::LeasesFile => Some(ValueView::Text(c.leases_file)),
            Key::ListenAddr => Some(ValueView::Socket(c.listen_addr)),
            Key::EnableDhcpv6 => Some(ValueView::Flag(c.enable_dhcpv6)),
            Key::ServerDuid => Some(ValueView::Duid(c.server_duid)),
            Key::Ipv6Start => Some(ValueView::Addr6(c.ipv6_start)),
            Key::Ipv6LeaseNum => Some(ValueView::Num64(c.ipv6_lease_num)),
            Key::Ipv6Dns => Some(ValueView::List6(c.ipv6_dns)),
            Key::Ipv6LeaseDurationSecs => Some(ValueView::Num32(c.ipv6_lease_duration_secs)),
            Key::LeasesFileV6 => Some(ValueView::Text(c.leases_file_v6)),
            Key::ListenAddrV6 => Some(ValueView::Socket(c.listen_addr_v6)),
            Key::Unknown => None,
        }
    }
}

/// The settings with one of them set that is not about broadcast addresses.
pub open spec fn changed(cfg: ConfigView, key: Key, value: ValueView) -> ConfigView {
    match (key, value) {
        (Key::ServerIp, ValueView::Addr4(v)) => ConfigView { server_ip: v, ..cfg },
        (Key::IpStart, ValueView::Addr4(v)) => ConfigView { ip_start: v, ..cfg },
        (Key::LeaseNum, ValueView::Num32(v)) => ConfigView { lease_num: v, ..cfg },
        (Key::SubnetMask, ValueView::Addr4(v)) => ConfigView { subnet_mask: v, ..cfg },
        (Key::RouterIp, ValueView::Addr4(v)) => ConfigView { router_ip: v, ..cfg },
        (Key::DnsIps, ValueView::List4(v)) => ConfigView { dns_ips: v, ..cfg },
        (Key::EnableNtp, ValueView::Flag(v)) => ConfigView { enable_ntp: v, ..cfg },
        (Key::NtpIps, ValueView::List4(v)) => ConfigView { ntp_ips: v, ..cfg },
        (Key::EnableRapidCommit, ValueView::Flag(v)) => ConfigView {
            enable_rapid_commit: v,
            ..cfg
        },
        (Key::LeaseDurationSecs, ValueView::Num32(v)) => ConfigView {
            lease_duration_secs: v,
            ..cfg
        },
        (Key::LeasesFile, ValueView::Text(v)) => ConfigView { leases_file: v, ..cfg },
        (Key::ListenAddr, ValueView::Socket(v)) => ConfigView { listen_addr: v, ..cfg },
        (Key::EnableDhcpv6, ValueView::Flag(v)) => ConfigView { enable_dhcpv6: v, ..cfg },
        (Key::ServerDuid, ValueView::Duid(v)) => ConfigView { server_duid: v, ..cfg },
        (Key::Ipv6Start, ValueView::Addr6(v)) => ConfigView { ipv6_start: v, ..cfg },
        (Key::Ipv6LeaseNum, ValueView::Num64(v)) => ConfigView { ipv6_lease_num: v, ..cfg },
        (Key::Ipv6Dns, ValueView::List6(v)) => ConfigView { ipv6_dns: v, ..cfg },
        (Key::Ipv6LeaseDurationSecs, ValueView::Num32(v)) => ConfigView {
            ipv6_lease_duration_secs: v,
            ..cfg
        },
        (Key::LeasesFileV6, ValueView::Text(v)) => ConfigView { leases_file_v6: v, ..cfg },
        (Key::ListenAddrV6, ValueView::Socket(v)) => ConfigView { listen_addr_v6: v, ..cfg },
        _ => cfg,
    }
}

/// The draft with one of the settings set.
pub open spec fn assigned(d: DraftView, key: Key, value: ValueView) -> DraftView {
    match (key, value) {
        (Key::BroadcastIp, ValueView::List4(list)) => DraftView {
            settings: ConfigView { broadcast_ip: list.first(), ..d.settings },
            listed: list.drop_first(),
            listed_last: true,
            ..d
        },
        (Key::ExtraBroadcastIps, ValueView::List4(list)) => DraftView {
            extra: list,
            listed_last: false,
            ..d
        },
        _ => DraftView { settings: changed(d.settings, key, value), ..d },
    }
}

/// The draft after the assignment of `value` to the key named `name`, which
/// is in lower case. Unknown keys change nothing.
pub open spec fn applied(d: DraftView, name: Seq<char>, value: Seq<char>, line: nat) -> Result<
    DraftView,
    ConfigErrorView,
> {
    let key = key_named(name);
    match kind_for(key) {
        None => Ok(d),
        Some(kind) => match value_of(kind, value) {
            Some(v) => Ok(assigned(d, key, v)),
            None => Err(
                ConfigErrorView::InvalidValue {
                    line,
                    what: expected(key, kind),
                    key: name,
                    value,
                },
            ),
        },
    }
}

/// Whether a comment starts at `i`: a `#` with white space before it.
pub open spec fn starts_comment(v: Seq<char>, i: int) -> bool {
    0 < i < v.len() && v[i] == '#' && is_whitespace(v[i - 1])
}

/// The first position from `from` on at which a comment starts.
pub open spec fn comment_from(v: Seq<char>, from: int) -> Option<int>
    decreases v.len() - from,
{
    if from >= v.len() {
        None
    } else if starts_comment(v, from) {
        Some(from)
    } else {
        comment_from(v, from + 1)
    }
}

/// `v` without a trailing comment and the white space before it.
pub open spec fn without_comment(v: Seq<char>) -> Seq<char> {
    match comment_from(v, 0) {
        Some(i) => trim_end(v.take(i)),
        None => v,
    }
}

/// What a line says.
pub enum LineView {
    /// Nothing: it is blank or a comment.
    Nothing,
    /// Something that is no assignment.
    Other,
    /// An assignment: the key as it is written, and the value.
    Assignment(Seq<char>, Seq<char>),
}

/// What a line says.
pub open spec fn line_of(raw: Seq<char>) -> LineView {
    let line = trim(raw);
    if line.len() == 0 || line[0] == '#' || line[0] == ';' {
        LineView::Nothing
    } else {
        match first_index(line, '=') {
            None => LineView::Other,
            Some(eq) => LineView::Assignment(
                trim(line.take(eq)),
                without_comment(trim(line.skip(eq + 1))),
            ),
        }
    }
}

/// The draft after the assignment of `value` to the key named `name`, which is
/// in lower case. Neither may be empty.
pub open spec fn entry_applied(
    d: DraftView,
    name: Seq<char>,
    value: Seq<char>,
    line: nat,
) -> Result<DraftView, ConfigErrorView> {
    if name.len() == 0 {
        Err(ConfigErrorView::EmptyKey { line })
    } else if value.len() == 0 {
        Err(ConfigErrorView::EmptyValue { line, key: name })
    } else {
        applied(d, name, value, line)
    }
}

/// The draft after the line `raw`, which has the number `line`.
pub open spec fn line_applied(d: DraftView, raw: Seq<char>, line: nat) -> Result<
    DraftView,
    ConfigErrorView,
> {
    match line_of(raw) {
        LineView::Nothing => Ok(d),
        LineView::Other => Err(ConfigErrorView::NotAnAssignment { line, got: trim(raw) }),
        LineView::Assignment(written, value) => entry_applied(d, lowercase(written), value, line),
    }
}

/// The draft after `lines`, which are numbered from one, or the first error.
pub open spec fn lines_applied(lines: Seq<Seq<char>>) -> Result<DraftView, ConfigErrorView>
    decreases lines.len(),
{
    if lines.len() == 0 {
        Ok(blank_draft())
    } else {
        match lines_applied(lines.drop_last()) {
            Err(e) => Err(e),
            Ok(d) => line_applied(d, lines.last(), lines.len()),
        }
    }
}

/// Why settings that were read do not fit together, if they do not.
pub open spec fn conflict(cfg: ConfigView) -> Option<ConfigErrorView> {
    if cfg.server_duid.len() == 0 || cfg.server_duid.len() > 128 {
        Some(ConfigErrorView::DuidLength)
    } else if cfg.ip_start.bits + cfg.lease_num > 0x1_0000_0000 {
        Some(ConfigErrorView::Ipv4Overflow)
    } else if cfg.ipv6_start.bits + cfg.ipv6_lease_num > u128::MAX {
        Some(ConfigErrorView::Ipv6Overflow)
    } else {
        None
    }
}

/// The settings that a file with the given text stands for.
pub open spec fn settings_of(text: Seq<char>) -> Result<ConfigView, ConfigErrorView> {
    match lines_applied(split_on(text, '\n')) {
        Err(e) => Err(e),
        Ok(d) => match conflict(d.finished()) {
            Some(e) => Err(e),
            None => Ok(d.finished()),
        },
    }
}

proof fn lemma_lines_error_stays(lines: Seq<Seq<char>>, i: int)
    requires
        0 <= i <= lines.len(),
        lines_applied(lines.take(i)) is Err,
    ensures
        lines_applied(lines) == lines_applied(lines.take(i)),
    decreases lines.len() - i,
{
    if i < lines.len() {
        assert(lines.take(i + 1).drop_last() =~= lines.take(i));
        lemma_lines_error_stays(lines, i + 1);
    } else {
        assert(lines.take(i) =~= lines);
    }
}

/// Strips a trailing comment.
fn strip_comment<'a>(v: &'a [char]) -> (r: &'a [char])
    ensures
        r@ == without_comment(v@),
{
    let mut i: usize = 0;
    while i < v.len()
        invariant
            i <= v@.len(),
            comment_from(v@, 0) == comment_from(v@, i as int),
        decreases v@.len() - i,
    {
        if i > 0 && v[i] == '#' && whitespace(v[i - 1]) {
            let head = slice_subrange(v, 0, i);
            assert(head@ =~= v@.take(i as int));
            return trimmed_end(head);
        }
        i = i + 1;
    }
    v
}

impl Draft {
    /// A draft before the first line.
    pub fn new() -> (r: Draft)
        ensures
            r@ == blank_draft(),
    {
        let r = Draft {
            settings: Config::defaults(),
            listed: Vec::new(),
            extra: Vec::new(),
            listed_last: false,
        };
        assert(r.listed@ =~= Seq::empty());
        assert(r.extra@ =~= Seq::empty());
        r
    }

    /// Sets one of the settings.
    fn assign(&mut self, key: Key, value: Value)
        requires
            value@ matches ValueView::List4(list) ==> list.len() > 0,
        ensures
            final(self)@ == assigned(old(self)@, key, value@),
    {
        match (key, value) {
            (Key::ServerIp, Value::Addr4(v)) => self.settings.server_ip = v,
            (Key::IpStart, Value::Addr4(v)) => self.settings.ip_start = v,
            (Key::LeaseNum, Value::Num32(v)) => self.settings.lease_num = v,
            (Key::SubnetMask, Value::Addr4(v)) => self.settings.subnet_mask = v,
            (Key::RouterIp, Value::Addr4(v)) => self.settings.router_ip = v,
            (Key::DnsIps, Value::List4(v)) => self.settings.dns_ips = v,
            (Key::EnableNtp, Value::Flag(v)) => self.settings.enable_ntp = v,
            (Key::NtpIps, Value::List4(v)) => self.settings.ntp_ips = v,
            (Key::EnableRapidCommit, Value::Flag(v)) => self.settings.enable_rapid_commit = v,
            (Key::BroadcastIp, Value::List4(list)) => {
                let mut list = list;
                let ghost all = list@;
                self.settings.broadcast_ip = list.remove(0);
                assert(list@ =~= all.drop_first());
                self.listed = list;
                self.listed_last = true;
            },
            (Key::ExtraBroadcastIps, Value::List4(list)) => {
                self.extra = list;
                self.listed_last = false;
            },
            (Key::LeaseDurationSecs, Value::Num32(v)) => self.settings.lease_duration_secs = v,
            (Key::LeasesFile, Value::Text(v)) => self.settings.leases_file = v,
            (Key::ListenAddr, Value::Socket(v)) => self.settings.listen_addr = v,
            (Key::EnableDhcpv6, Value::Flag(v)) => self.settings.enable_dhcpv6 = v,
            (Key::ServerDuid, Value::Duid(v)) => self.settings.server_duid = v,
            (Key::Ipv6Start, Value::Addr6(v)) => self.settings.ipv6_start = v,
            (Key::Ipv6LeaseNum, Value::Num64(v)) => self.settings.ipv6_lease_num = v,
            (Key::Ipv6Dns, Value::List6(v)) => self.settings.ipv6_dns = v,
            (Key::Ipv6LeaseDurationSecs, Value::Num32(v)) => {
                self.settings.ipv6_lease_duration_secs = v
            },
            (Key::LeasesFileV6, Value::Text(v)) => self.settings.leases_file_v6 = v,
            (Key::ListenAddrV6, Value::Socket(v)) => self.settings.listen_addr_v6 = v,
            _ => {},
        }
    }

    /// Assigns `value` to the key named `name`, which is in lower case. Where
    /// the value is not valid the draft stays as it is.
    pub fn apply(&mut self, name: &str, value: &str, line: usize) -> (r: Result<(), ConfigError>)
        ensures
            match r {
                Ok(_) => applied(old(self)@, name@, value@, line as nat) == Ok::<
                    DraftView,
                    ConfigErrorView,
                >(final(self)@),
                Err(e) => {
                    &&& applied(old(self)@, name@, value@, line as nat) == Err::<
                        DraftView,
                        ConfigErrorView,
                    >(e@)
                    &&& final(self)@ == old(self)@
                },
            },
    {
        let key = key_of(name);
        match kind_of(key) {
            None => Ok(()),
            Some(kind) => match read_value(kind, value) {
                Some(v) => {
                    self.assign(key, v);
                    Ok(())
                },
                None => Err(
                    ConfigError::InvalidValue {
                        line,
                        what: expectation(key, kind),
                        key: name.to_owned(),
                        value: value.to_owned(),
                    },
                ),
            },
        }
    }

    /// Assigns `value` to the key named `name`, which is in lower case. An empty
    /// name and an empty value are errors.
    pub fn apply_entry(&mut self, name: &str, value: &str, line: usize) -> (r: Result<
        (),
        ConfigError,
    >)
        ensures
            match r {
                Ok(_) => entry_applied(old(self)@, name@, value@, line as nat) == Ok::<
                    DraftView,
                    ConfigErrorView,
                >(final(self)@),
                Err(e) => {
                    &&& entry_applied(old(self)@, name@, value@, line as nat) == Err::<
                        DraftView,
                        ConfigErrorView,
                    >(e@)
                    &&& final(self)@ == old(self)@
                },
            },
    {
        if chars_of(name).len() == 0 {
            return Err(ConfigError::EmptyKey { line });
        }
        if chars_of(value).len() == 0 {
            return Err(ConfigError::EmptyValue { line, key: name.to_owned() });
        }
        self.apply(name, value, line)
    }

    /// Applies one line.
    pub fn apply_line(&mut self, raw: &[char], line_no: usize) -> (r: Result<(), ConfigError>)
        ensures
            match r {
                Ok(_) => line_applied(old(self)@, raw@, line_no as nat) == Ok::<
                    DraftView,
                    ConfigErrorView,
                >(final(self)@),
                Err(e) => {
                    &&& line_applied(old(self)@, raw@, line_no as nat) == Err::<
                        DraftView,
                        ConfigErrorView,
                    >(e@)
                    &&& final(self)@ == old(self)@
                },
            },
    {
        let line = trimmed(raw);
        if line.len() == 0 || line[0] == '#' || line[0] == ';' {
            return Ok(());
        }
        let eq = match index_of(line, '=') {
            Some(eq) => eq,
            None => {
                return Err(ConfigError::NotAnAssignment { line: line_no, got: string_of(line) });
            },
        };
        let n = line.len();
        let before = slice_subrange(line, 0, eq);
        let after = slice_subrange(line, eq + 1, n);
        assert(before@ =~= line@.take(eq as int));
        assert(after@ =~= line@.skip(eq + 1));
        let written = string_of(trimmed(before));
        let key = lowered(written.as_str());
        let value = strip_comment(trimmed(after));
        let value = string_of(value);
        self.apply_entry(key.as_str(), value.as_str(), line_no)
    }

    /// The settings that the draft stands for.
    pub fn finish(self) -> (r: Config)
        ensures
            r@ == self@.finished(),
    {
        let mut listed = self.listed;
        let mut extra = self.extra;
        let mut settings = self.settings;
        if self.listed_last {
            extra.append(&mut listed);
            settings.extra_broadcast_ips = extra;
        } else {
            listed.append(&mut extra);
            settings.extra_broadcast_ips = listed;
        }
        settings
    }
}

impl Config {
    /// The settings that hold where the file says nothing.
    pub fn defaults() -> (r: Config)
        ensures
            r@ == default_settings(),
    {
        let mut dns_ips: Vec<Ipv4Addr> = Vec::new();
        dns_ips.push(Ipv4Addr::new(8, 8, 8, 8));
        let duid: [u8; 10] = [0x00, 0x03, 0x00, 0x01, 0x02, 0x00, 0x5e, 0xaa, 0xbb, 0xcc];
        let mut ipv6_dns: Vec<Ipv6Addr> = Vec::new();
        ipv6_dns.push(Ipv6Addr::from_bits(0x2001_4860_4860_0000_0000_0000_0000_8888));
        let r = Config {
            server_ip: Ipv4Addr::new(192, 168, 2, 1),
            ip_start: Ipv4Addr::new(192, 168, 2, 2),
            lease_num: 252,
            subnet_mask: Ipv4Addr::new(255, 255, 255, 0),
            router_ip: Ipv4Addr::new(192, 168, 2, 1),
            dns_ips,
            enable_ntp: false,
            ntp_ips: Vec::new(),
            enable_rapid_commit: false,
            broadcast_ip: Ipv4Addr::new(192, 168, 2, 255),
            extra_broadcast_ips: Vec::new(),
            lease_duration_secs: 86400,
            leases_file: "leases".to_owned(),
            listen_addr: SocketAddr::v4(Ipv4Addr::unspecified(), 67),
            enable_dhcpv6: false,
            server_duid: slice_to_vec(duid.as_slice()),
            ipv6_start: Ipv6Addr::from_bits(0xfd00_0000_0000_0000_0000_0000_0000_0100),
            ipv6_lease_num: 1000,
            ipv6_dns,
            ipv6_lease_duration_secs: 86400,
            leases_file_v6: "leases6".to_owned(),
            listen_addr_v6: SocketAddr::v6(Ipv6Addr::from_bits(0), 547),
        };
        assert(r.dns_ips@ =~= default_settings().dns_ips);
        assert(r.ntp_ips@ =~= default_settings().ntp_ips);
        assert(r.extra_broadcast_ips@ =~= default_settings().extra_broadcast_ips);
        assert(r.server_duid@ =~= default_settings().server_duid);
        assert(r.ipv6_dns@ =~= default_settings().ipv6_dns);
        r
    }

    /// The first IPv4 address of the pool as a number.
    pub fn ip_start_num(&self) -> (r: u32)
        ensures
            r == self@.ip_start.bits,
    {
        self.ip_start.to_bits()
    }

    /// The last IPv4 address of the pool, if the pool has any.
    pub fn last_ip(&self) -> (r: Option<Ipv4Addr>)
        requires
            self@.ip_start.bits + self@.lease_num <= 0x1_0000_0000,
        ensures
            match r {
                Some(last) => {
                    &&& self@.lease_num > 0
                    &&& last.bits == self@.ip_start.bits + self@.lease_num - 1
                },
                None => self@.lease_num == 0,
            },
    {
        if self.lease_num == 0 {
            None
        } else {
            Some(Ipv4Addr::from_bits(self.ip_start_num() + (self.lease_num - 1)))
        }
    }

    /// The first IPv6 address of the pool as a number.
    pub fn ipv6_start_num(&self) -> (r: u128)
        ensures
            r == self@.ipv6_start.bits,
    {
        self.ipv6_start.to_bits()
    }

    /// All broadcast destinations, the primary one first, none twice.
    pub fn broadcasts(&self) -> (r: Vec<Ipv4Addr>)
        ensures
            r@ == broadcasts_of(self@.broadcast_ip, self@.extra_broadcast_ips),
    {
        let ghost extras = self.extra_broadcast_ips@;
        let mut out: Vec<Ipv4Addr> = Vec::new();
        out.push(self.broadcast_ip);
        assert(out@ =~= broadcasts_of(self.broadcast_ip, extras.take(0)));
        let mut i: usize = 0;
        while i < self.extra_broadcast_ips.len()
            invariant
                i <= extras.len(),
                extras == self.extra_broadcast_ips@,
                out@ == broadcasts_of(self.broadcast_ip, extras.take(i as int)),
            decreases extras.len() - i,
        {
            assert(extras.take(i + 1).drop_last() =~= extras.take(i as int));
            let a = self.extra_broadcast_ips[i];
            if !contains_addr(out.as_slice(), a) {
                out.push(a);
            }
            i = i + 1;
        }
        assert(extras.take(i as int) =~= extras);
        out
    }

    /// Checks that the settings fit together: the pools lie within the address
    /// space, and the DUID has 1 to 128 bytes (RFC 8415).
    pub fn validate(self) -> (r: Result<Config, ConfigError>)
        ensures
            match r {
                Ok(cfg) => cfg == self && conflict(self@) is None,
                Err(e) => conflict(self@) == Some(e@),
            },
            r is Ok <==> {
                &&& 1 <= self@.server_duid.len() <= 128
                &&& self@.ip_start.bits + self@.lease_num <= 0x1_0000_0000
                &&& self@.ipv6_start.bits + self@.ipv6_lease_num <= u128::MAX
            },
    {
        if self.server_duid.len() == 0 || self.server_duid.len() > 128 {
            return Err(ConfigError::DuidLength);
        }
        if self.ip_start_num() as u64 + self.lease_num as u64 > 0x1_0000_0000 {
            return Err(ConfigError::Ipv4Overflow);
        }
        if self.ipv6_start_num() > u128::MAX - self.ipv6_lease_num as u128 {
            return Err(ConfigError::Ipv6Overflow);
        }
        Ok(self)
    }

    /// Reads the text of a configuration file; the error is kept as a value.
    pub fn read(text: &str) -> (r: Result<Config, ConfigError>)
        ensures
            match r {
                Ok(cfg) => settings_of(text@) == Ok::<ConfigView, ConfigErrorView>(cfg@),
                Err(e) => settings_of(text@) == Err::<ConfigView, ConfigErrorView>(e@),
            },
    {
        let chars = chars_of(text);
        let lines = split(chars.as_slice(), '\n');
        let ghost texts = split_on(text@, '\n');
        assert(texts == views(lines@));
        let mut draft = Draft::new();
        let mut i: usize = 0;
        while i < lines.len()
            invariant
                i <= lines@.len(),
                texts == views(lines@),
                texts == split_on(text@, '\n'),
                lines_applied(texts.take(i as int)) == Ok::<DraftView, ConfigErrorView>(draft@),
            decreases lines@.len() - i,
        {
            assert(texts.take(i + 1).drop_last() =~= texts.take(i as int));
            assert(texts[i as int] == lines@[i as int]@);
            match draft.apply_line(lines[i].as_slice(), i + 1) {
                Ok(_) => {},
                Err(e) => {
                    proof {
                        lemma_lines_error_stays(texts, i + 1);
                    }
                    return Err(e);
                },
            }
            i = i + 1;
        }
        assert(texts.take(i as int) =~= texts);
        draft.finish().validate()
    }

    /// Reads the text of a configuration file.
    pub fn parse(text: &str) -> (r: Result<Config, String>)
        ensures
            match r {
                Ok(cfg) => settings_of(text@) == Ok::<ConfigView, ConfigErrorView>(cfg@),
                Err(s) => settings_of(text@) matches Err(e) && s@ == e.text(
                    debug_text(e.first()),
                    debug_text(e.second()),
                ),
            },
    {
        match Config::read(text) {
            Ok(cfg) => Ok(cfg),
            Err(e) => Err(e.message()),
        }
    }
}

// ---------------------------------------------------------------------------
// What the file format promises
// ---------------------------------------------------------------------------

/// Settings that were read have pools within the address space and a DUID of
/// 1 to 128 bytes.
pub proof fn parsed_settings_are_valid(text: Seq<char>, cfg: ConfigView)
    requires
        settings_of(text) == Ok::<ConfigView, ConfigErrorView>(cfg),
    ensures
        1 <= cfg.server_duid.len() <= 128,
        cfg.ip_start.bits + cfg.lease_num <= 0x1_0000_0000,
        cfg.ipv6_start.bits + cfg.ipv6_lease_num <= u128::MAX,
{
}

/// The settings without a file are valid, too.
pub proof fn default_settings_are_valid()
    ensures
        conflict(default_settings()) is None,
{
}

/// Without a line that assigns something, the settings are the default ones.
pub proof fn silent_file_means_defaults(text: Seq<char>)
    requires
        forall|i: int|
            0 <= i < split_on(text, '\n').len() ==> line_of(#[trigger] split_on(text, '\n')[i])
                is Nothing,
    ensures
        settings_of(text) == Ok::<ConfigView, ConfigErrorView>(default_settings()),
{
    lemma_silent_lines(split_on(text, '\n'));
    default_settings_are_valid();
    assert(blank_draft().finished().extra_broadcast_ips =~= Seq::empty());
}

proof fn lemma_silent_lines(lines: Seq<Seq<char>>)
    requires
        forall|i: int| 0 <= i < lines.len() ==> line_of(#[trigger] lines[i]) is Nothing,
    ensures
        lines_applied(lines) == Ok::<DraftView, ConfigErrorView>(blank_draft()),
    decreases lines.len(),
{
    if lines.len() > 0 {
        let before = lines.drop_last();
        assert forall|i: int| 0 <= i < before.len() implies line_of(#[trigger] before[i])
            is Nothing by {
            assert(before[i] == lines[i]);
        }
        lemma_silent_lines(before);
        assert(lines.last() == lines[lines.len() - 1]);
    }
}

/// A value ends where the first comment behind it starts: a `#` with white
/// space before it.
pub proof fn trailing_comments_are_stripped(v: Seq<char>, i: int)
    requires
        starts_comment(v, i),
        forall|j: int| j < i ==> !#[trigger] starts_comment(v, j),
    ensures
        without_comment(v) == trim_end(v.take(i)),
{
    lemma_comment_from(v, 0, i);
}

/// A value without such a `#` is kept as it is.
pub proof fn glued_hashes_stay(v: Seq<char>)
    requires
        forall|j: int| !#[trigger] starts_comment(v, j),
    ensures
        without_comment(v) == v,
{
    lemma_comment_from(v, 0, v.len() as int);
}

proof fn lemma_comment_from(v: Seq<char>, from: int, i: int)
    requires
        0 <= from <= i <= v.len(),
        i < v.len() ==> starts_comment(v, i),
        forall|j: int| from <= j < i ==> !#[trigger] starts_comment(v, j),
    ensures
        comment_from(v, from) == if i < v.len() {
            Some(i)
        } else {
            None
        },
    decreases i - from,
{
    if from < i {
        lemma_comment_from(v, from + 1, i);
    }
}

/// Whether a line does nothing: it is blank or a comment, or it assigns
/// something to a key that is not known.
pub open spec fn idle(raw: Seq<char>) -> bool {
    match line_of(raw) {
        LineView::Nothing => true,
        LineView::Other => false,
        LineView::Assignment(written, value) => {
            &&& lowercase(written).len() > 0
            &&& value.len() > 0
            &&& key_named(lowercase(written)) == Key::Unknown
        },
    }
}

/// A line that does nothing can be put anywhere into a file that is accepted,
/// and the settings stay the same.
pub proof fn idle_lines_change_nothing(
    text: Seq<char>,
    longer: Seq<char>,
    cfg: ConfigView,
    i: int,
    raw: Seq<char>,
)
    requires
        settings_of(text) == Ok::<ConfigView, ConfigErrorView>(cfg),
        0 <= i <= split_on(text, '\n').len(),
        split_on(longer, '\n') == split_on(text, '\n').insert(i, raw),
        idle(raw),
    ensures
        settings_of(longer) == Ok::<ConfigView, ConfigErrorView>(cfg),
{
    lemma_idle_line(split_on(text, '\n'), i, raw);
}

/// The number of a line matters only to errors.
proof fn lemma_line_number(d: DraftView, raw: Seq<char>, line1: nat, line2: nat)
    requires
        line_applied(d, raw, line1) is Ok,
    ensures
        line_applied(d, raw, line2) == line_applied(d, raw, line1),
{
}

proof fn lemma_idle_applied(d: DraftView, raw: Seq<char>, line: nat)
    requires
        idle(raw),
    ensures
        line_applied(d, raw, line) == Ok::<DraftView, ConfigErrorView>(d),
{
}

/// The last line is applied to what the lines before it gave.
proof fn lemma_last_line(lines: Seq<Seq<char>>)
    requires
        lines.len() > 0,
        lines_applied(lines.drop_last()) is Ok,
    ensures
        lines_applied(lines) == line_applied(
            lines_applied(lines.drop_last())->Ok_0,
            lines.last(),
            lines.len(),
        ),
{
}

proof fn lemma_idle_line(lines: Seq<Seq<char>>, i: int, raw: Seq<char>)
    requires
        lines_applied(lines) is Ok,
        0 <= i <= lines.len(),
        idle(raw),
    ensures
        lines_applied(lines.insert(i, raw)) == lines_applied(lines),
    decreases lines.len(),
{
    let longer = lines.insert(i, raw);
    if i == lines.len() {
        assert(longer.drop_last() =~= lines);
        lemma_last_line(longer);
        lemma_idle_applied(lines_applied(lines)->Ok_0, raw, longer.len());
    } else {
        let before = lines_applied(lines.drop_last())->Ok_0;
        assert(longer.drop_last() =~= lines.drop_last().insert(i, raw));
        lemma_idle_line(lines.drop_last(), i, raw);
        assert(longer.last() == lines.last());
        lemma_last_line(lines);
        lemma_last_line(longer);
        lemma_line_number(before, lines.last(), lines.len(), longer.len());
    }
}

/// Unknown keys are ignored, whatever their value.
pub proof fn unknown_keys_are_ignored(
    d: DraftView,
    name: Seq<char>,
    value: Seq<char>,
    line: nat,
)
    requires
        key_named(name) == Key::Unknown,
    ensures
        applied(d, name, value, line) == Ok::<DraftView, ConfigErrorView>(d),
{
}

/// The case of a key makes no difference: lines whose keys have the same lower
/// case and whose values are the same do the same.
pub proof fn keys_are_case_insensitive(
    d: DraftView,
    raw1: Seq<char>,
    raw2: Seq<char>,
    line: nat,
)
    requires
        line_of(raw1) matches LineView::Assignment(k1, v1) && line_of(raw2)
            matches LineView::Assignment(k2, v2) && lowercase(k1) == lowercase(k2) && v1 == v2,
    ensures
        line_applied(d, raw1, line) == line_applied(d, raw2, line),
{
}

/// The key that a line assigns something to.
pub open spec fn key_set_by(raw: Seq<char>) -> Option<Key> {
    match line_of(raw) {
        LineView::Assignment(written, _) => Some(key_named(lowercase(written))),
        _ => None,
    }
}

/// Of several lines with the same key the last one counts: what it assigns is
/// what the draft says of the key in the end.
pub proof fn last_assignment_wins(
    lines: Seq<Seq<char>>,
    i: int,
    d: DraftView,
    written: Seq<char>,
    value: Seq<char>,
    kind: Kind,
)
    requires
        lines_applied(lines) == Ok::<DraftView, ConfigErrorView>(d),
        0 <= i < lines.len(),
        line_of(lines[i]) == LineView::Assignment(written, value),
        kind_for(key_named(lowercase(written))) == Some(kind),
        forall|j: int|
            i < j < lines.len() ==> key_set_by(#[trigger] lines[j]) != key_set_by(lines[i]),
    ensures
        value_of(kind, value) is Some,
        d.value(key_named(lowercase(written))) == value_of(kind, value),
    decreases lines.len(),
{
    let key = key_named(lowercase(written));
    let rest = lines.drop_last();
    let before = lines_applied(rest)->Ok_0;
    let last = lines.last();
    if i == lines.len() - 1 {
        lemma_value_of_kind(kind, value);
        lemma_assigned_value(before, key, kind, value_of(kind, value)->0);
    } else {
        assert(rest[i] == lines[i]);
        assert forall|j: int| i < j < rest.len() implies key_set_by(#[trigger] rest[j])
            != key_set_by(rest[i]) by {
            assert(rest[j] == lines[j]);
        }
        last_assignment_wins(rest, i, before, written, value, kind);
        match line_of(last) {
            LineView::Assignment(w2, text2) => {
                assert(key_set_by(lines[lines.len() - 1]) != Some(key));
                let key2 = key_named(lowercase(w2));
                match kind_for(key2) {
                    Some(kind2) => {
                        lemma_other_values_stay(before, key2, value_of(kind2, text2)->0, key);
                    },
                    None => {},
                }
            },
            _ => {},
        }
    }
}

/// What is said of a key that no line sets is what the defaults say.
pub proof fn unset_keys_keep_defaults(lines: Seq<Seq<char>>, d: DraftView, key: Key)
    requires
        lines_applied(lines) == Ok::<DraftView, ConfigErrorView>(d),
        forall|j: int| 0 <= j < lines.len() ==> key_set_by(#[trigger] lines[j]) != Some(key),
    ensures
        d.value(key) == blank_draft().value(key),
    decreases lines.len(),
{
    if lines.len() > 0 {
        let rest = lines.drop_last();
        let before = lines_applied(rest)->Ok_0;
        assert forall|j: int| 0 <= j < rest.len() implies key_set_by(#[trigger] rest[j]) != Some(
            key,
        ) by {
            assert(rest[j] == lines[j]);
        }
        unset_keys_keep_defaults(rest, before, key);
        match line_of(lines.last()) {
            LineView::Assignment(w2, text2) => {
                assert(key_set_by(lines[lines.len() - 1]) != Some(key));
                let key2 = key_named(lowercase(w2));
                match kind_for(key2) {
                    Some(kind2) => {
                        lemma_other_values_stay(before, key2, value_of(kind2, text2)->0, key);
                    },
                    None => {},
                }
            },
            _ => {},
        }
    }
}

/// Whether the settings hold what was assigned to a key. The further broadcast
/// destinations come from two keys, so that each gives their first or their
/// last part.
pub open spec fn settled(cfg: ConfigView, key: Key, v: ValueView) -> bool {
    match (key, v) {
        (Key::BroadcastIp, ValueView::List4(list)) => {
            let rest = list.drop_first();
            &&& cfg.broadcast_ip == list.first()
            &&& rest.is_prefix_of(cfg.extra_broadcast_ips) || rest.is_suffix_of(
                cfg.extra_broadcast_ips,
            )
        },
        (Key::ExtraBroadcastIps, ValueView::List4(list)) => {
            list.is_prefix_of(cfg.extra_broadcast_ips) || list.is_suffix_of(
                cfg.extra_broadcast_ips,
            )
        },
        _ => changed(cfg, key, v) == cfg,
    }
}

/// The settings that are read from a file hold, for each key, what the last
/// line with that key assigns. Where no line sets `broadcast_ip`, the further
/// broadcast destinations are those of the last `extra_broadcast_ips` line
/// alone.
pub proof fn last_line_settles_settings(
    text: Seq<char>,
    cfg: ConfigView,
    i: int,
    written: Seq<char>,
    value: Seq<char>,
    kind: Kind,
)
    requires
        settings_of(text) == Ok::<ConfigView, ConfigErrorView>(cfg),
        0 <= i < split_on(text, '\n').len(),
        line_of(split_on(text, '\n')[i]) == LineView::Assignment(written, value),
        kind_for(key_named(lowercase(written))) == Some(kind),
        forall|j: int|
            i < j < split_on(text, '\n').len() ==> key_set_by(#[trigger] split_on(text, '\n')[j])
                != key_set_by(split_on(text, '\n')[i]),
    ensures
        value_of(kind, value) matches Some(v) && settled(cfg, key_named(lowercase(written)), v),
        key_named(lowercase(written)) == Key::ExtraBroadcastIps && (forall|j: int|
            0 <= j < split_on(text, '\n').len() ==> key_set_by(#[trigger] split_on(text, '\n')[j])
                != Some(Key::BroadcastIp)) ==> value_of(kind, value) == Some(
            ValueView::List4(cfg.extra_broadcast_ips),
        ),
{
    let lines = split_on(text, '\n');
    let d = lines_applied(lines)->Ok_0;
    let key = key_named(lowercase(written));
    last_assignment_wins(lines, i, d, written, value, kind);
    let v = value_of(kind, value)->0;
    lemma_value_of_kind(kind, value);
    match v {
        ValueView::List4(list) => {
            assert((seq![d.settings.broadcast_ip] + d.listed).drop_first() =~= d.listed);
            assert(d.listed =~= (d.listed + d.extra).subrange(0, d.listed.len() as int));
            assert(d.extra =~= (d.extra + d.listed).subrange(0, d.extra.len() as int));
            assert(d.listed =~= (d.extra + d.listed).subrange(
                d.extra.len() as int,
                (d.extra + d.listed).len() as int,
            ));
            assert(d.extra =~= (d.listed + d.extra).subrange(
                d.listed.len() as int,
                (d.listed + d.extra).len() as int,
            ));
        },
        _ => {},
    }
    if key == Key::ExtraBroadcastIps && (forall|j: int|
        0 <= j < lines.len() ==> key_set_by(#[trigger] lines[j]) != Some(Key::BroadcastIp)) {
        unset_keys_keep_defaults(lines, d, Key::BroadcastIp);
        assert((seq![d.settings.broadcast_ip] + d.listed).len() == 1 + d.listed.len());
        let defaults = blank_draft();
        assert((seq![defaults.settings.broadcast_ip] + defaults.listed).len() == 1);
        assert(d.listed =~= Seq::empty());
        assert(cfg.extra_broadcast_ips =~= d.extra);
    }
}

/// An assignment touches nothing that is said of another key.
proof fn lemma_other_values_stay(d: DraftView, key: Key, v: ValueView, other: Key)
    requires
        key != other,
    ensures
        assigned(d, key, v).value(other) == d.value(other),
{
}

/// What is assigned to a key is what is said of it.
proof fn lemma_assigned_value(d: DraftView, key: Key, kind: Kind, v: ValueView)
    requires
        kind_for(key) == Some(kind),
        of_kind(v, kind),
    ensures
        assigned(d, key, v).value(key) == Some(v),
{
    match v {
        ValueView::List4(list) => {
            assert(seq![list.first()] + list.drop_first() =~= list);
        },
        _ => {},
    }
}

/// Whether a value is of a kind. A list of broadcast addresses has one at
/// least.
spec fn of_kind(v: ValueView, kind: Kind) -> bool {
    match kind {
        Kind::Addr4 => v is Addr4,
        Kind::Addr6 => v is Addr6,
        Kind::Num32 => v is Num32,
        Kind::Num64 => v is Num64,
        Kind::List4 => v matches ValueView::List4(list) && list.len() > 0,
        Kind::List6 => v is List6,
        Kind::Flag => v is Flag,
        Kind::Socket => v is Socket,
        Kind::Text => v is Text,
        Kind::Duid => v is Duid,
    }
}

/// A value that was read is of its kind; a list is not empty.
proof fn lemma_value_of_kind(kind: Kind, text: Seq<char>)
    requires
        value_of(kind, text) is Some,
    ensures
        of_kind(value_of(kind, text)->0, kind),
{
    match kind {
        Kind::List4 => {
            lemma_split_some(text, ',');
            lemma_ipv4s_len(split_on(text, ','));
        },
        _ => {},
    }
}

/// An error that a line causes tells the number of the line, and an error
/// about a value tells the key and the value.
pub proof fn errors_name_line_and_key(d: DraftView, raw: Seq<char>, line: nat)
    requires
        line_applied(d, raw, line) is Err,
    ensures
        match line_applied(d, raw, line)->Err_0 {
            ConfigErrorView::NotAnAssignment { line: l, got } => l == line && got == trim(raw),
            ConfigErrorView::EmptyKey { line: l } => l == line,
            ConfigErrorView::EmptyValue { line: l, key } => {
                &&& l == line
                &&& line_of(raw) matches LineView::Assignment(k, _) && key == lowercase(k)
            },
            ConfigErrorView::InvalidValue { line: l, key, value, .. } => {
                &&& l == line
                &&& line_of(raw) matches LineView::Assignment(k, v) && key == lowercase(k) && value
                    == v
            },
            _ => false,
        },
{
}

/// The broadcast destinations start with the primary one, hold every further
/// one, nothing else, and nothing twice.
pub proof fn broadcasts_are_distinct(primary: Ipv4Addr, extras: Seq<Ipv4Addr>)
    ensures
        broadcasts_of(primary, extras).len() > 0,
        broadcasts_of(primary, extras)[0] == primary,
        broadcasts_of(primary, extras).no_duplicates(),
        forall|a: Ipv4Addr| #[trigger]
            broadcasts_of(primary, extras).contains(a) <==> a == primary || extras.contains(a),
    decreases extras.len(),
{
    let out = broadcasts_of(primary, extras);
    if extras.len() == 0 {
        assert(out[0] == primary);
    } else {
        let rest = extras.drop_last();
        let before = broadcasts_of(primary, rest);
        broadcasts_are_distinct(primary, rest);
        assert forall|a: Ipv4Addr| #[trigger] out.contains(a) <==> a == primary || extras.contains(
            a,
        ) by {
            if out.contains(a) {
                let i = choose|i: int| 0 <= i < out.len() && out[i] == a;
                if i < before.len() {
                    assert(before[i] == a);
                    assert(before.contains(a));
                    if rest.contains(a) {
                        let j = choose|j: int| 0 <= j < rest.len() && rest[j] == a;
                        assert(extras[j] == a);
                    }
                } else {
                    assert(extras[extras.len() - 1] == a);
                }
            }
            if a == primary {
                assert(out[0] == a);
            }
            if extras.contains(a) {
                let j = choose|j: int| 0 <= j < extras.len() && extras[j] == a;
                if j < rest.len() {
                    assert(rest[j] == a);
                    assert(before.contains(a));
                    let i = choose|i: int| 0 <= i < before.len() && before[i] == a;
                    assert(out[i] == a);
                } else if before.contains(a) {
                    assert(out == before);
                } else {
                    assert(out[out.len() - 1] == a);
                }
            }
        }
    }
}

} // verus!
