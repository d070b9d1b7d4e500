//! Numbers as text: decimal and hexadecimal numerals, read and written.

use vstd::prelude::*;

verus! {

// ---------------------------------------------------------------------------
// Reading
// ---------------------------------------------------------------------------

/// The value of a hexadecimal digit of either case.
pub open spec fn hex_digit(c: char) -> Option<u8> {
    if '0' <= c <= '9' {
        Some((c as u8 - '0' as u8) as u8)
    } else if 'a' <= c <= 'f' {
        Some((c as u8 - 'a' as u8 + 10) as u8)
    } else if 'A' <= c <= 'F' {
        Some((c as u8 - 'A' as u8 + 10) as u8)
    } else {
        None
    }
}

pub fn hex_digit_value(c: char) -> (r: Option<u8>)
    ensures
        r == hex_digit(c),
        r matches Some(d) ==> d < 16,
{
    let n = c as u32;
    if 48 <= n && n <= 57 {
        Some((n - 48) as u8)
    } else if 97 <= n && n <= 102 {
        Some((n - 97 + 10) as u8)
    } else if 65 <= n && n <= 70 {
        Some((n - 65 + 10) as u8)
    } else {
        None
    }
}

/// The value of `c` as a digit in base `radix` (at most 16).
pub open spec fn digit_in(c: char, radix: nat) -> Option<nat> {
    match hex_digit(c) {
        Some(d) => if d < radix {
            Some(d as nat)
        } else {
            None
        },
        None => None,
    }
}

/// The number written by the digits `s`, which may be none; nothing where
/// some character is not a digit.
pub open spec fn digits_value(s: Seq<char>, radix: nat) -> Option<nat>
    decreases s.len(),
{
    if s.len() == 0 {
        Some(0)
    } else {
        match (digits_value(s.drop_last(), radix), digit_in(s.last(), radix)) {
            (Some(v), Some(d)) => Some(v * radix + d),
            _ => None,
        }
    }
}

/// The number that the numeral `s` denotes; a numeral has at least one digit.
pub open spec fn numeral(s: Seq<char>, radix: nat) -> Option<nat> {
    if s.len() == 0 {
        None
    } else {
        digits_value(s, radix)
    }
}

/// `n`, where it is at most `max`.
pub open spec fn at_most(n: Option<nat>, max: nat) -> Option<nat> {
    match n {
        Some(v) => if v <= max {
            Some(v)
        } else {
            None
        },
        None => None,
    }
}

/// A numeral with an optional plus sign before it.
pub open spec fn signed_numeral(s: Seq<char>, radix: nat) -> Option<nat> {
    if s.len() > 0 && s.first() == '+' {
        numeral(s.drop_first(), radix)
    } else {
        numeral(s, radix)
    }
}

proof fn lemma_digits_prefix(s: Seq<char>, radix: nat, i: int)
    requires
        0 <= i <= s.len(),
        radix >= 1,
    ensures
        digits_value(s.take(i), radix) is None ==> digits_value(s, radix) is None,
        digits_value(s, radix) matches Some(v) ==> digits_value(s.take(i), radix)->0 <= v,
    decreases s.len() - i,
{
    if i < s.len() {
        lemma_digits_prefix(s, radix, i + 1);
        assert(s.take(i + 1).drop_last() =~= s.take(i));
        if digits_value(s.take(i + 1), radix) is Some {
            let v = digits_value(s.take(i), radix)->0;
            assert(v * radix >= v) by (nonlinear_arith)
                requires
                    radix >= 1,
            ;
        }
    } else {
        assert(s.take(i) =~= s);
    }
}

/// Reads a numeral in base ten or sixteen that is at most `max`.
pub fn read_numeral(s: &[char], radix: u8, max: u64) -> (r: Option<u64>)
    requires
        radix == 10 || radix == 16,
    ensures
        match r {
            Some(v) => at_most(numeral(s@, radix as nat), max as nat) == Some(v as nat),
            None => at_most(numeral(s@, radix as nat), max as nat) is None,
        },
{
    if s.len() == 0 {
        return None;
    }
    let mut acc: u128 = 0;
    let mut i: usize = 0;
    assert(s@.take(0) =~= Seq::<char>::empty());
    while i < s.len()
        invariant
            i <= s@.len(),
            radix == 10 || radix == 16,
            acc <= max,
            s@.len() > 0,
            digits_value(s@.take(i as int), radix as nat) == Some(acc as nat),
        decreases s@.len() - i,
    {
        let d = match hex_digit_value(s[i]) {
            Some(d) => d,
            None => {
                proof {
                    assert(s@.take(i + 1).drop_last() =~= s@.take(i as int));
                    lemma_digits_prefix(s@, radix as nat, i + 1);
                }
                return None;
            },
        };
        proof {
            assert(s@.take(i + 1).drop_last() =~= s@.take(i as int));
            lemma_digits_prefix(s@, radix as nat, i + 1);
        }
        if d >= radix {
            return None;
        }
        assert(acc * radix + d <= u64::MAX * 16 + 16) by (nonlinear_arith)
            requires
                acc <= u64::MAX,
                radix <= 16,
                d < 16,
        ;
        acc = acc * (radix as u128) + d as u128;
        if acc > max as u128 {
            return None;
        }
        i = i + 1;
    }
    assert(s@.take(i as int) =~= s@);
    Some(acc as u64)
}

/// Reads a numeral, with or without a plus sign, that is at most `max`.
pub fn read_unsigned(s: &[char], radix: u8, max: u64) -> (r: Option<u64>)
    requires
        radix == 10 || radix == 16,
    ensures
        match r {
            Some(v) => at_most(signed_numeral(s@, radix as nat), max as nat) == Some(v as nat),
            None => at_most(signed_numeral(s@, radix as nat), max as nat) is None,
        },
{
    if s.len() > 0 && s[0] == '+' {
        let t = vstd::slice::slice_subrange(s, 1, s.len());
        assert(t@ =~= s@.drop_first());
        read_numeral(t, radix, max)
    } else {
        read_numeral(s, radix, max)
    }
}

// ---------------------------------------------------------------------------
// Writing
// ---------------------------------------------------------------------------

/// The decimal digit `d`.
pub open spec fn digit_char(d: nat) -> char {
    ('0' as u32 + d) as char
}

/// `n` in decimal, without leading zeros.
pub open spec fn decimal(n: nat) -> Seq<char>
    decreases n,
{
    if n < 10 {
        seq![digit_char(n)]
    } else {
        decimal(n / 10).push(digit_char(n % 10))
    }
}

/// `n` in decimal, with zeros in front up to `width` digits.
pub open spec fn decimal_padded(n: nat, width: nat) -> Seq<char> {
    let d = decimal(n);
    if d.len() < width {
        Seq::new((width - d.len()) as nat, |i: int| '0') + d
    } else {
        d
    }
}

/// The lower-case hexadecimal digit `d`.
pub open spec fn hex_char(d: nat) -> char {
    if d < 10 {
        ('0' as u32 + d) as char
    } else {
        ('a' as u32 + (d - 10)) as char
    }
}

/// The two lower-case hexadecimal digits of a byte.
pub open spec fn hex_pair(b: u8) -> Seq<char> {
    seq![hex_char((b / 16) as nat), hex_char((b % 16) as nat)]
}

pub fn push_decimal(out: &mut String, n: u64)
    ensures
        final(out)@ == old(out)@ + decimal(n as nat),
    decreases n,
{
    if n >= 10 {
        push_decimal(out, n / 10);
    }
    let c: char = (48u8 + (n % 10) as u8) as char;
    out.push(c);
    assert(c == digit_char((n % 10) as nat));
    assert(out@ =~= old(out)@ + decimal(n as nat));
}

proof fn lemma_decimal_len(n: nat)
    ensures
        decimal(n).len() >= 1,
        n < 10 ==> decimal(n).len() == 1,
        10 <= n < 100 ==> decimal(n).len() == 2,
        100 <= n < 1000 ==> decimal(n).len() == 3,
        n >= 1000 ==> decimal(n).len() >= 4,
    decreases n,
{
    if n >= 10 {
        lemma_decimal_len(n / 10);
    }
}

/// Appends `n` with at least `width` digits (two or four).
pub fn push_decimal_padded(out: &mut String, n: u64, width: u8)
    requires
        width == 2 || width == 4,
    ensures
        final(out)@ == old(out)@ + decimal_padded(n as nat, width as nat),
{
    proof {
        lemma_decimal_len(n as nat);
    }
    if width == 4 {
        if n < 1000 {
            out.push('0');
        }
        if n < 100 {
            out.push('0');
        }
    }
    if n < 10 {
        out.push('0');
    }
    push_decimal(out, n);
    assert(out@ =~= old(out)@ + decimal_padded(n as nat, width as nat));
}

pub fn push_hex_pair(out: &mut String, b: u8)
    ensures
        final(out)@ == old(out)@ + hex_pair(b),
{
    let hi = b / 16;
    let lo = b % 16;
    let c1: char = if hi < 10 { (48u8 + hi) as char } else { (97u8 + (hi - 10)) as char };
    let c2: char = if lo < 10 { (48u8 + lo) as char } else { (97u8 + (lo - 10)) as char };
    out.push(c1);
    out.push(c2);
    assert(out@ =~= old(out)@ + hex_pair(b));
}

} // verus!
