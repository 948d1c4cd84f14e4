//! Wire-level primitives: base-128 varints and little-endian integers.
//!
//! Each encoding is defined once as a spec function over byte
//! sequences; the executable encoders and decoders are proved against
//! those definitions.
use vstd::prelude::*;
use vstd::arithmetic::div_mod::lemma_div_is_ordered;
use vstd::arithmetic::div_mod::lemma_fundamental_div_mod;
use vstd::arithmetic::div_mod::lemma_multiply_divide_lt;
use vstd::arithmetic::power::pow;

verus! {

/// Base-128 varint encoding of `n`: seven bits per byte, least
/// significant group first, the high bit set on every byte but the
/// last.
pub open spec fn varint(n: u64) -> Seq<u8>
    decreases n,
{
    if n < 0x80 {
        seq![n as u8]
    } else {
        seq![(n % 0x80 + 0x80) as u8] + varint(n / 0x80)
    }
}

/// Decodes one varint from the front of `s`: the value and the number
/// of bytes consumed, or `None` when the input ends before a
/// terminating byte or the value would not fit in 64 bits.
pub open spec fn parse_varint(s: Seq<u8>) -> Option<(u64, int)>
    decreases s.len(),
{
    if s.len() == 0 {
        None
    } else if s[0] < 0x80 {
        Some((s[0] as u64, 1))
    } else {
        match parse_varint(s.skip(1)) {
            Some((v, k)) => if v <= 0x01ff_ffff_ffff_ffff {
                Some((((v * 0x80 + (s[0] - 0x80)) as u64), k + 1))
            } else {
                None
            },
            None => None,
        }
    }
}

/// Decoding inverts encoding: a varint followed by anything parses
/// back to the encoded value, consuming exactly the varint's bytes.
pub proof fn lemma_parse_varint(n: u64, rest: Seq<u8>)
    ensures
        parse_varint(varint(n) + rest) == Some((n, varint(n).len() as int)),
    decreases n,
{
    let s = varint(n) + rest;
    if n < 0x80 {
        assert(s[0] == n as u8);
    } else {
        let b0 = (n % 0x80 + 0x80) as u8;
        assert(s[0] == b0);
        assert(s.skip(1) =~= varint(n / 0x80) + rest);
        lemma_parse_varint(n / 0x80, rest);
        lemma_div_is_ordered(n as int, u64::MAX as int, 0x80);
        assert(n / 0x80 <= 0x01ff_ffff_ffff_ffff);
        lemma_fundamental_div_mod(n as int, 0x80);
        assert((n / 0x80) * 0x80 + (b0 - 0x80) == n);
    }
}

/// A decoded varint consumed at least one byte and no more than the
/// input holds.
pub proof fn lemma_parse_varint_bounds(s: Seq<u8>)
    ensures
        parse_varint(s) matches Some((v, k)) ==> 1 <= k <= s.len(),
    decreases s.len(),
{
    if s.len() > 0 && s[0] >= 0x80 {
        lemma_parse_varint_bounds(s.skip(1));
    }
}

/// A value below `0x80^k` takes at most `k` varint bytes.
proof fn lemma_varint_len_k(n: u64, k: nat)
    requires
        1 <= k,
        (n as int) < pow(0x80, k),
    ensures
        1 <= varint(n).len() <= k,
    decreases k,
{
    if n >= 0x80 {
        reveal(pow);
        assert(pow(0x80, k) == 0x80 * pow(0x80, (k - 1) as nat));
        lemma_multiply_divide_lt(n as int, 0x80, pow(0x80, (k - 1) as nat));
        lemma_varint_len_k(n / 0x80, (k - 1) as nat);
    }
}

/// A varint never takes more than ten bytes.
pub proof fn lemma_varint_len(n: u64)
    ensures
        1 <= varint(n).len() <= 10,
{
    assert(pow(0x80, 10) == 0x40_0000_0000_0000_0000) by {
        reveal_with_fuel(pow, 11);
    }
    lemma_varint_len_k(n, 10);
}

/// Appends the varint encoding of `n0` to `out`.
pub fn encode_varint(n0: u64, out: &mut Vec<u8>)
    ensures
        final(out)@ == old(out)@ + varint(n0),
{
    let mut n = n0;
    while n >= 0x80
        invariant
            out@ + varint(n) == old(out)@ + varint(n0),
        decreases n,
    {
        let b: u8 = (n % 0x80 + 0x80) as u8;
        proof {
            assert((out@ + seq![b]) + varint(n / 0x80) =~= out@ + (seq![b] + varint(n / 0x80)));
        }
        out.push(b);
        n = n / 0x80;
    }
    proof {
        assert(out@ + seq![n as u8] =~= out@ + varint(n));
    }
    out.push(n as u8);
}

/// Reads one varint from `s` starting at `pos`, returning the value
/// and the position just past it.
pub fn decode_varint(s: &[u8], pos: usize) -> (r: Option<(u64, usize)>)
    requires
        pos <= s@.len(),
    ensures
        (parse_varint(s@.skip(pos as int)) is None ==> r is None),
        (parse_varint(s@.skip(pos as int)) matches Some((v, k)) ==> r matches Some((rv, np))
            && rv == v && np == pos + k && np <= s@.len()),
    decreases s@.len() - pos,
{
    if pos == s.len() {
        return None;
    }
    let b = s[pos];
    if b < 0x80 {
        Some((b as u64, pos + 1))
    } else {
        proof {
            assert(s@.skip(pos as int).skip(1) =~= s@.skip(pos as int + 1));
        }
        match decode_varint(s, pos + 1) {
            Some((v, np)) => if v <= 0x01ff_ffff_ffff_ffff {
                Some((v * 0x80 + (b - 0x80) as u64, np))
            } else {
                None
            },
            None => None,
        }
    }
}

/// Little-endian bytes of a 16-bit integer.
pub open spec fn le16_bytes(n: u16) -> Seq<u8> {
    seq![(n % 0x100) as u8, (n / 0x100) as u8]
}

/// Little-endian bytes of a 32-bit integer.
pub open spec fn le32_bytes(n: u32) -> Seq<u8> {
    seq![
        (n % 0x100) as u8,
        (n / 0x100 % 0x100) as u8,
        (n / 0x10000 % 0x100) as u8,
        (n / 0x1000000) as u8,
    ]
}

/// The 32-bit integer read back from four little-endian bytes.
pub open spec fn le32_value(b0: u8, b1: u8, b2: u8, b3: u8) -> u32 {
    (b0 + b1 * 0x100 + b2 * 0x10000 + b3 * 0x1000000) as u32
}

/// Reading four little-endian bytes back gives the encoded integer.
pub proof fn lemma_le32_round_trip(n: u32)
    ensures
        le32_value(le32_bytes(n)[0], le32_bytes(n)[1], le32_bytes(n)[2], le32_bytes(n)[3]) == n,
{
    assert(n % 0x100 + (n / 0x100 % 0x100) * 0x100 + (n / 0x10000 % 0x100) * 0x10000 + (n
        / 0x1000000) * 0x1000000 == n) by (bit_vector);
}

/// Appends the two little-endian bytes of `n` to `out`.
pub fn push_le16(n: u16, out: &mut Vec<u8>)
    ensures
        final(out)@ == old(out)@ + le16_bytes(n),
{
    out.push((n % 0x100) as u8);
    out.push((n / 0x100) as u8);
    proof {
        assert(out@ =~= old(out)@ + le16_bytes(n));
    }
}

/// Appends the four little-endian bytes of `n` to `out`.
pub fn push_le32(n: u32, out: &mut Vec<u8>)
    ensures
        final(out)@ == old(out)@ + le32_bytes(n),
{
    out.push((n % 0x100) as u8);
    out.push((n / 0x100 % 0x100) as u8);
    out.push((n / 0x10000 % 0x100) as u8);
    out.push((n / 0x1000000) as u8);
    proof {
        assert(out@ =~= old(out)@ + le32_bytes(n));
    }
}

} // verus!
