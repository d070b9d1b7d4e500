//! Big-endian integers on the wire.

use vstd::prelude::*;
use vstd::slice::slice_to_vec;

verus! {

/// The natural number whose big-endian digits in base 256 are `s`.
pub open spec fn be_value(s: Seq<u8>) -> nat
    decreases s.len(),
{
    if s.len() == 0 {
        0
    } else {
        be_value(s.drop_last()) * 256 + s.last() as nat
    }
}

/// The low `n` base-256 digits of `v`, most significant first.
pub open spec fn be_bytes(v: nat, n: nat) -> Seq<u8>
    decreases n,
{
    if n == 0 {
        Seq::empty()
    } else {
        be_bytes(v / 256, (n - 1) as nat).push((v % 256) as u8)
    }
}

/// The number of values that `n` bytes can hold.
pub open spec fn byte_range(n: nat) -> nat
    decreases n,
{
    if n == 0 {
        1
    } else {
        256 * byte_range((n - 1) as nat)
    }
}

pub broadcast proof fn lemma_be_bytes_len(v: nat, n: nat)
    ensures
        #[trigger] be_bytes(v, n).len() == n,
    decreases n,
{
    if n > 0 {
        lemma_be_bytes_len(v / 256, (n - 1) as nat);
    }
}

/// Bytes written from a number that fits read back as that number.
pub proof fn lemma_value_of_bytes(v: nat, n: nat)
    requires
        v < byte_range(n),
    ensures
        be_value(be_bytes(v, n)) == v,
    decreases n,
{
    if n > 0 {
        lemma_value_of_bytes(v / 256, (n - 1) as nat);
        assert(be_bytes(v, n).drop_last() =~= be_bytes(v / 256, (n - 1) as nat));
    }
}

/// A number read from bytes is written back as those bytes.
pub proof fn lemma_bytes_of_value(s: Seq<u8>)
    ensures
        be_bytes(be_value(s), s.len()) == s,
    decreases s.len(),
{
    if s.len() > 0 {
        lemma_bytes_of_value(s.drop_last());
        assert(be_value(s) / 256 == be_value(s.drop_last()));
        assert(be_value(s) % 256 == s.last());
        assert(s =~= s.drop_last().push(s.last()));
    } else {
        assert(be_bytes(be_value(s), 0) =~= s);
    }
}

pub proof fn lemma_be_value_bound(s: Seq<u8>)
    ensures
        be_value(s) < byte_range(s.len()),
    decreases s.len(),
{
    if s.len() > 0 {
        lemma_be_value_bound(s.drop_last());
    }
}

pub proof fn lemma_byte_ranges()
    ensures
        byte_range(2) == 0x1_0000,
        byte_range(3) == 0x100_0000,
        byte_range(4) == 0x1_0000_0000,
        byte_range(16) == 0x1_0000_0000_0000_0000_0000_0000_0000_0000,
{
    reveal_with_fuel(byte_range, 17);
}

proof fn lemma_be_value_2(s: Seq<u8>)
    requires
        s.len() == 2,
    ensures
        be_value(s) == s[0] * 0x100 + s[1],
{
    reveal_with_fuel(be_value, 3);
}

proof fn lemma_be_value_4(s: Seq<u8>)
    requires
        s.len() == 4,
    ensures
        be_value(s) == s[0] * 0x100_0000 + s[1] * 0x1_0000 + s[2] * 0x100 + s[3],
{
    reveal_with_fuel(be_value, 5);
}

/// The big-endian `u16` at offset `i`.
pub fn read_u16(s: &[u8], i: usize) -> (r: u16)
    requires
        i + 2 <= s@.len(),
    ensures
        r as nat == be_value(s@.subrange(i as int, i + 2)),
{
    proof {
        lemma_be_value_2(s@.subrange(i as int, i + 2));
    }
    (s[i] as u16) * 0x100 + s[i + 1] as u16
}

/// The big-endian `u32` at offset `i`.
pub fn read_u32(s: &[u8], i: usize) -> (r: u32)
    requires
        i + 4 <= s@.len(),
    ensures
        r as nat == be_value(s@.subrange(i as int, i + 4)),
{
    proof {
        lemma_be_value_4(s@.subrange(i as int, i + 4));
    }
    (s[i] as u32) * 0x100_0000 + (s[i + 1] as u32) * 0x1_0000 + (s[i + 2] as u32) * 0x100
        + s[i + 3] as u32
}

/// The big-endian `u128` at offset `i`.
pub fn read_u128(s: &[u8], i: usize) -> (r: u128)
    requires
        i + 16 <= s@.len(),
    ensures
        r as nat == be_value(s@.subrange(i as int, i + 16)),
{
    let n = s.len();
    let mut r: u128 = 0;
    let mut k: usize = 0;
    proof {
        lemma_byte_ranges();
        lemma_be_value_bound(s@.subrange(i as int, i + 16));
    }
    while k < 16
        invariant
            k <= 16,
            i + 16 <= n,
            n == s@.len(),
            r as nat == be_value(s@.subrange(i as int, i + k)),
            byte_range(16) == 0x1_0000_0000_0000_0000_0000_0000_0000_0000,
        decreases 16 - k,
    {
        proof {
            let t = s@.subrange(i as int, i + k + 1);
            assert(t.drop_last() =~= s@.subrange(i as int, i + k));
            lemma_be_value_bound(t);
            lemma_byte_range_mono((k + 1) as nat, 16);
        }
        r = r * 256 + s[i + k] as u128;
        k = k + 1;
    }
    r
}

proof fn lemma_byte_range_mono(m: nat, n: nat)
    requires
        m <= n,
    ensures
        byte_range(m) <= byte_range(n),
    decreases n,
{
    if m < n {
        lemma_byte_range_mono(m, (n - 1) as nat);
    }
}

/// Appends the bytes of `s`.
pub fn push_slice(out: &mut Vec<u8>, s: &[u8])
    ensures
        final(out)@ == old(out)@ + s@,
{
    let mut v = slice_to_vec(s);
    out.append(&mut v);
}

/// Appends `v` as two big-endian bytes.
pub fn push_u16(out: &mut Vec<u8>, v: u16)
    ensures
        final(out)@ == old(out)@ + be_bytes(v as nat, 2),
{
    proof {
        reveal_with_fuel(be_bytes, 3);
    }
    out.push((v / 0x100) as u8);
    out.push((v % 0x100) as u8);
    assert(out@ =~= old(out)@ + be_bytes(v as nat, 2));
}

/// Appends `v` as four big-endian bytes.
pub fn push_u32(out: &mut Vec<u8>, v: u32)
    ensures
        final(out)@ == old(out)@ + be_bytes(v as nat, 4),
{
    proof {
        reveal_with_fuel(be_bytes, 5);
    }
    out.push((v / 0x100_0000) as u8);
    out.push(((v / 0x1_0000) % 0x100) as u8);
    out.push(((v / 0x100) % 0x100) as u8);
    out.push((v % 0x100) as u8);
    assert(out@ =~= old(out)@ + be_bytes(v as nat, 4));
}

/// Appends `v` as sixteen big-endian bytes.
pub fn push_u128(out: &mut Vec<u8>, v: u128)
    ensures
        final(out)@ == old(out)@ + be_bytes(v as nat, 16),
{
    let bytes = u128_bytes(v);
    let mut k: usize = 0;
    while k < 16
        invariant
            k <= 16,
            bytes@.len() == 16,
            out@ == old(out)@ + bytes@.subrange(0, k as int),
        decreases 16 - k,
    {
        out.push(bytes[k]);
        k = k + 1;
        assert(out@ =~= old(out)@ + bytes@.subrange(0, k as int));
    }
    assert(bytes@.subrange(0, 16) =~= bytes@);
}

/// The sixteen big-endian bytes of `v`.
pub fn u128_bytes(v: u128) -> (r: [u8; 16])
    ensures
        r@ == be_bytes(v as nat, 16),
{
    let mut r: [u8; 16] = [0u8; 16];
    let mut rest: u128 = v;
    let mut k: usize = 16;
    assert(r@.subrange(16, 16) =~= Seq::<u8>::empty());
    while k > 0
        invariant
            k <= 16,
            r@.len() == 16,
            be_bytes(v as nat, 16) == be_bytes(rest as nat, k as nat) + r@.subrange(k as int, 16),
        decreases k,
    {
        let ghost before = r@;
        k = k - 1;
        r[k] = (rest % 256) as u8;
        proof {
            assert(r@.subrange(k as int, 16) =~= seq![(rest % 256) as u8] + before.subrange(
                k + 1,
                16,
            ));
            assert(be_bytes(rest as nat, (k + 1) as nat) + before.subrange(k + 1, 16) =~= be_bytes(
                (rest / 256) as nat,
                k as nat,
            ) + r@.subrange(k as int, 16));
        }
        rest = rest / 256;
    }
    assert(r@.subrange(0, 16) =~= r@);
    assert(be_bytes(rest as nat, 0) + r@ =~= r@);
    r
}

} // verus!
