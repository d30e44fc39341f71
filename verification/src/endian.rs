//! Little-endian byte layouts of fixed-width integers.

use vstd::prelude::*;

verus! {

/// The two bytes of `x`, low byte first.
pub open spec fn le16(x: u16) -> Seq<u8> {
    seq![(x % 256) as u8, (x / 256) as u8]
}

/// The four bytes of `x`, low byte first.
pub open spec fn le32(x: u32) -> Seq<u8> {
    seq![
        (x % 256) as u8,
        (x / 256 % 256) as u8,
        (x / 65536 % 256) as u8,
        (x / 16777216) as u8,
    ]
}

/// The 32-bit pattern that stands for `x` in two's complement.
pub open spec fn twos_complement(x: i32) -> u32 {
    if x >= 0 {
        x as u32
    } else {
        (x + 0x1_0000_0000) as u32
    }
}

/// The four bytes of `x` in two's complement, low byte first.
pub open spec fn le32_signed(x: i32) -> Seq<u8> {
    le32(twos_complement(x))
}

/// The number whose four little-endian bytes are `b`.
pub open spec fn le32_value(b: Seq<u8>) -> int
    recommends
        b.len() == 4,
{
    b[0] as int + 256 * (b[1] as int) + 65536 * (b[2] as int) + 16777216 * (b[3] as int)
}

/// The signed number whose four little-endian two's complement bytes are `b`.
pub open spec fn le32_signed_value(b: Seq<u8>) -> int
    recommends
        b.len() == 4,
{
    if le32_value(b) < 0x8000_0000 {
        le32_value(b)
    } else {
        le32_value(b) - 0x1_0000_0000
    }
}

/// Reading back the four bytes of an unsigned number gives that number.
pub proof fn lemma_le32_roundtrip(x: u32)
    ensures
        le32(x).len() == 4,
        le32_value(le32(x)) == x,
{
}

/// Reading back the four bytes of a signed number gives that number.
pub proof fn lemma_le32_signed_roundtrip(x: i32)
    ensures
        le32_signed(x).len() == 4,
        le32_signed_value(le32_signed(x)) == x,
{
    lemma_le32_roundtrip(twos_complement(x));
}

/// `n` reduced to 32 bits, as a length field holds it.
pub open spec fn low32(n: nat) -> u32 {
    (n % 0x1_0000_0000) as u32
}

/// Appends `src` to `out`.
pub fn append(out: &mut Vec<u8>, src: &[u8])
    ensures
        final(out)@ == old(out)@ + src@,
{
    let mut i: usize = 0;
    while i < src.len()
        invariant
            i <= src.len(),
            out@ == old(out)@ + src@.take(i as int),
        decreases src.len() - i,
    {
        out.push(src[i]);
        proof {
            assert(src@.take(i + 1) =~= src@.take(i as int).push(src@[i as int]));
        }
        i += 1;
    }
    proof {
        assert(src@.take(src.len() as int) =~= src@);
    }
}

/// Appends the two little-endian bytes of `x` to `out`.
pub fn push_u16(out: &mut Vec<u8>, x: u16)
    ensures
        final(out)@ == old(out)@ + le16(x),
{
    out.push((x % 256) as u8);
    out.push((x / 256) as u8);
    proof {
        assert(out@ =~= old(out)@ + le16(x));
    }
}

/// Appends the four little-endian bytes of `x` to `out`.
pub fn push_u32(out: &mut Vec<u8>, x: u32)
    ensures
        final(out)@ == old(out)@ + le32(x),
{
    out.push((x % 256) as u8);
    out.push((x / 256 % 256) as u8);
    out.push((x / 65536 % 256) as u8);
    out.push((x / 16777216) as u8);
    proof {
        assert(out@ =~= old(out)@ + le32(x));
    }
}

/// Appends the four little-endian two's complement bytes of `x` to `out`.
pub fn push_i32(out: &mut Vec<u8>, x: i32)
    ensures
        final(out)@ == old(out)@ + le32_signed(x),
{
    let pattern: u32 = if x >= 0 {
        x as u32
    } else {
        (x as i64 + 0x1_0000_0000) as u32
    };
    push_u32(out, pattern);
}

/// The low 32 bits of a length.
pub fn length_field(n: usize) -> (x: u32)
    ensures
        x == low32(n as nat),
{
    (n as u64 % 0x1_0000_0000) as u32
}

} // verus!
