//! The preamble of the container: the header text and the dictionary.

use crate::dictionary::entries;
use crate::dictionary::Reference;
use crate::dictionary::ReferenceEntry;
use crate::endian::append;
use crate::endian::le32;
use crate::endian::length_field;
use crate::endian::low32;
use crate::endian::push_u32;
use vstd::prelude::*;
use vstd::utf8::encode_utf8;

verus! {

/// The length field of a name of `n` bytes: `n` and the zero byte that
/// ends it, as 32 bits hold the sum.
pub open spec fn name_length_field(n: nat) -> u32 {
    low32(n + 1)
}

/// A name as the dictionary holds it: its bytes and a zero byte.
pub open spec fn terminated_name(name: Seq<char>) -> Seq<u8> {
    encode_utf8(name) + seq![0u8]
}

/// One entry of the dictionary: the length of the terminated name, the
/// terminated name, and the length of the reference.
pub open spec fn reference_block(entry: ReferenceEntry) -> Seq<u8> {
    le32(name_length_field(encode_utf8(entry.name).len())) + terminated_name(entry.name) + le32(
        entry.length,
    )
}

/// The entries of the dictionary, one after the other.
pub open spec fn reference_blocks(dict: Seq<ReferenceEntry>) -> Seq<u8>
    decreases dict.len(),
{
    if dict.len() == 0 {
        Seq::empty()
    } else {
        reference_blocks(dict.drop_last()) + reference_block(dict.last())
    }
}

/// The preamble: the length of the header text, the text, the number of
/// references, and the dictionary's entries.
pub open spec fn header_block(text: Seq<u8>, dict: Seq<ReferenceEntry>) -> Seq<u8> {
    le32(low32(text.len())) + text + le32(low32(dict.len())) + reference_blocks(dict)
}

/// The length field of the name whose bytes are `name`.
pub fn name_length(name: &[u8]) -> (field: u32)
    ensures
        field == name_length_field(name@.len()),
{
    let low = length_field(name.len());
    if low == 0xffff_ffff {
        0
    } else {
        low + 1
    }
}

/// Appends one entry of the dictionary to `out`.
pub fn push_reference(out: &mut Vec<u8>, reference: &Reference)
    ensures
        final(out)@ == old(out)@ + reference_block(reference@),
{
    let name = reference.name.as_str().as_bytes();
    push_u32(out, name_length(name));
    append(out, name);
    out.push(0);
    push_u32(out, reference.length);
    proof {
        assert(out@ =~= old(out)@ + reference_block(reference@));
    }
}

/// Writes the preamble for a header text and its dictionary.
pub fn serialize_header(text: &[u8], references: &Vec<Reference>) -> (out: Vec<u8>)
    ensures
        out@ == header_block(text@, entries(references@)),
{
    let mut out: Vec<u8> = Vec::new();
    push_u32(&mut out, length_field(text.len()));
    append(&mut out, text);
    push_u32(&mut out, length_field(references.len()));
    let ghost dict = entries(references@);
    let ghost head = out@;
    let mut i: usize = 0;
    while i < references.len()
        invariant
            i <= references.len(),
            dict == entries(references@),
            out@ == head + reference_blocks(dict.take(i as int)),
        decreases references.len() - i,
    {
        proof {
            assert(dict.take(i + 1).drop_last() =~= dict.take(i as int));
            assert(dict.take(i + 1).last() == references@[i as int]@);
        }
        push_reference(&mut out, &references[i]);
        proof {
            assert(out@ =~= head + reference_blocks(dict.take(i + 1)));
        }
        i += 1;
    }
    proof {
        assert(dict.take(references.len() as int) =~= dict);
        assert(head =~= le32(low32(text@.len())) + text@ + le32(low32(dict.len())));
    }
    out
}

} // verus!
