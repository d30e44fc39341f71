//! Base qualities: Phred+33 text to raw Phred bytes.

use crate::text::str_eq;
use vstd::prelude::*;
use vstd::utf8::encode_utf8;
use vstd::utf8::is_ascii_chars;
use vstd::utf8::is_ascii_chars_encode_utf8;

verus! {

/// The byte that stands for "no qualities".
pub const QUALITY_ABSENT: u8 = 0xff;

/// The text that stands for "no qualities".
pub open spec fn absent_marker() -> Seq<char> {
    seq!['*']
}

/// A byte of quality text less 33, and 0 where the byte is below 33.
pub open spec fn phred(b: u8) -> u8 {
    if b >= 33 {
        (b - 33) as u8
    } else {
        0
    }
}

/// The quality bytes for the text `qual`: the single byte `0xFF` for the
/// marker `*`, else one Phred value for each byte of the text.
pub open spec fn quality_bytes(qual: Seq<char>) -> Seq<u8> {
    if qual == absent_marker() {
        seq![QUALITY_ABSENT]
    } else {
        Seq::new(encode_utf8(qual).len(), |i: int| phred(encode_utf8(qual)[i]))
    }
}

/// For ASCII quality text other than the marker, the output holds one byte
/// for each character, in order: the character's code less 33, or 0 where
/// that would be negative.
pub proof fn lemma_quality_of_ascii(qual: Seq<char>)
    requires
        is_ascii_chars(qual),
        qual != absent_marker(),
    ensures
        quality_bytes(qual).len() == qual.len(),
        forall|i: int|
            0 <= i < qual.len() ==> quality_bytes(qual)[i] as int == if qual[i] as int >= 33 {
                qual[i] as int - 33
            } else {
                0
            },
{
    is_ascii_chars_encode_utf8(qual);
    assert forall|i: int| 0 <= i < qual.len() implies quality_bytes(qual)[i] as int == if qual[i] as int
        >= 33 {
        qual[i] as int - 33
    } else {
        0
    } by {
        assert(qual[i] as u8 == encode_utf8(qual)[i]);
        assert('\0' <= qual[i] <= '\u{7f}');
    }
}

/// Turns quality text into quality bytes.
pub fn encode_qual(qual: &str) -> (out: Vec<u8>)
    ensures
        out@ == quality_bytes(qual@),
{
    let mut out: Vec<u8> = Vec::new();
    proof {
        reveal_strlit("*");
        assert("*"@ =~= absent_marker());
    }
    if str_eq(qual, "*") {
        out.push(QUALITY_ABSENT);
        proof {
            assert(out@ =~= seq![QUALITY_ABSENT]);
        }
        return out;
    }
    let bytes = qual.as_bytes();
    let mut i: usize = 0;
    while i < bytes.len()
        invariant
            i <= bytes.len(),
            bytes@ == encode_utf8(qual@),
            out@.len() == i,
            forall|j: int| 0 <= j < i ==> out@[j] == phred(bytes@[j]),
        decreases bytes.len() - i,
    {
        let b = bytes[i];
        out.push(if b >= 33 {
            b - 33
        } else {
            0
        });
        i += 1;
    }
    proof {
        assert(out@ =~= quality_bytes(qual@));
    }
    out
}

} // verus!
