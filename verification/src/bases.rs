//! Packing of read bases: one 4-bit code per base, two bases per byte.

use crate::text::to_chars;
use vstd::prelude::*;

verus! {

/// The 4-bit code of a base letter, in either case; 15 for any other character.
pub open spec fn base_code(c: char) -> u8 {
    if c == '=' {
        0
    } else if c == 'A' || c == 'a' {
        1
    } else if c == 'C' || c == 'c' {
        2
    } else if c == 'M' || c == 'm' {
        3
    } else if c == 'G' || c == 'g' {
        4
    } else if c == 'R' || c == 'r' {
        5
    } else if c == 'S' || c == 's' {
        6
    } else if c == 'V' || c == 'v' {
        7
    } else if c == 'T' || c == 't' {
        8
    } else if c == 'W' || c == 'w' {
        9
    } else if c == 'Y' || c == 'y' {
        10
    } else if c == 'H' || c == 'h' {
        11
    } else if c == 'K' || c == 'k' {
        12
    } else if c == 'D' || c == 'd' {
        13
    } else if c == 'B' || c == 'b' {
        14
    } else {
        15
    }
}

/// The byte whose high nibble is `high` and whose low nibble is `low`.
pub open spec fn nibbles(high: u8, low: u8) -> u8
    recommends
        high < 16,
        low < 16,
{
    (high * 16 + low) as u8
}

/// The code at position `i` of `bases`, 0 past their end.
pub open spec fn code_at(bases: Seq<char>, i: int) -> u8 {
    if 0 <= i < bases.len() {
        base_code(bases[i])
    } else {
        0
    }
}

/// The packed form of `bases`: byte `i` holds base `2i` in its high nibble
/// and base `2i + 1` in its low nibble, which is zero where no base is left.
pub open spec fn packed_bases(bases: Seq<char>) -> Seq<u8> {
    Seq::new(
        ((bases.len() + 1) / 2) as nat,
        |i: int| nibbles(code_at(bases, 2 * i), code_at(bases, 2 * i + 1)),
    )
}

/// An even number of bases packs into half as many bytes; an odd number
/// into half rounded up, and then the last byte's low nibble is zero.
pub proof fn lemma_packed_length(bases: Seq<char>)
    ensures
        bases.len() % 2 == 0 ==> packed_bases(bases).len() == bases.len() / 2,
        bases.len() % 2 == 1 ==> packed_bases(bases).len() == (bases.len() + 1) / 2,
        bases.len() % 2 == 1 ==> packed_bases(bases).last() % 16 == 0,
{
    if bases.len() % 2 == 1 {
        let last = (bases.len() + 1) / 2 - 1;
        assert(packed_bases(bases).last() == nibbles(code_at(bases, 2 * last), 0));
    }
}

/// Each base's code can be read back from its nibble of the packed form.
pub proof fn lemma_packed_nibbles(bases: Seq<char>, k: int)
    requires
        0 <= k < bases.len(),
    ensures
        k / 2 < packed_bases(bases).len(),
        k % 2 == 0 ==> packed_bases(bases)[k / 2] / 16 == base_code(bases[k]),
        k % 2 == 1 ==> packed_bases(bases)[k / 2] % 16 == base_code(bases[k]),
{
    let i = k / 2;
    assert(packed_bases(bases)[i] == nibbles(code_at(bases, 2 * i), code_at(bases, 2 * i + 1)));
}

/// The 4-bit code of `c`.
pub fn code_of_base(c: char) -> (code: u8)
    ensures
        code == base_code(c),
        code < 16,
{
    if c == '=' {
        0
    } else if c == 'A' || c == 'a' {
        1
    } else if c == 'C' || c == 'c' {
        2
    } else if c == 'M' || c == 'm' {
        3
    } else if c == 'G' || c == 'g' {
        4
    } else if c == 'R' || c == 'r' {
        5
    } else if c == 'S' || c == 's' {
        6
    } else if c == 'V' || c == 'v' {
        7
    } else if c == 'T' || c == 't' {
        8
    } else if c == 'W' || c == 'w' {
        9
    } else if c == 'Y' || c == 'y' {
        10
    } else if c == 'H' || c == 'h' {
        11
    } else if c == 'K' || c == 'k' {
        12
    } else if c == 'D' || c == 'd' {
        13
    } else if c == 'B' || c == 'b' {
        14
    } else {
        15
    }
}

/// Packs the bases of `seq`, two to a byte.
pub fn encode_seq(seq: &str) -> (out: Vec<u8>)
    ensures
        out@ == packed_bases(seq@),
{
    let bases = to_chars(seq);
    let n = bases.len();
    let mut out: Vec<u8> = Vec::new();
    let pairs = n / 2;
    let mut k: usize = 0;
    while k < pairs
        invariant
            bases@ == seq@,
            n == bases.len(),
            pairs == n / 2,
            k <= pairs,
            out@.len() == k,
            forall|j: int| 0 <= j < k ==> out@[j] == packed_bases(seq@)[j],
        decreases pairs - k,
    {
        let high = code_of_base(bases[2 * k]);
        let low = code_of_base(bases[2 * k + 1]);
        out.push(high * 16 + low);
        k += 1;
    }
    if n % 2 == 1 {
        let high = code_of_base(bases[n - 1]);
        out.push(high * 16);
    }
    proof {
        assert(out@ =~= packed_bases(seq@));
    }
    out
}

} // verus!
