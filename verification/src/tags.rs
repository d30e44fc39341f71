//! Optional fields of an alignment line: `TAG:TYPE:VALUE`.

use crate::decimal::parse_decimal;
use crate::decimal::parse_i32;
use crate::endian::append;
use crate::endian::le32_signed;
use crate::endian::le32_signed_value;
use crate::endian::lemma_le32_signed_roundtrip;
use crate::endian::push_i32;
use crate::text::first_index_of;
use crate::text::index_of;
use crate::text::str_eq;
use crate::text::to_chars;
use vstd::prelude::*;
use vstd::string::StrSliceExecFns;
use vstd::utf8::encode_utf8;

verus! {

/// Why an optional field leaves no bytes in the record.
#[derive(Clone, Copy, Debug, PartialEq, Eq, Structural)]
pub enum TagIssue {
    /// The field does not hold two colons.
    Malformed,
    /// The value of an `i` field denotes no 32-bit signed integer.
    BadInteger,
    /// The value of an `A` field is empty.
    EmptyCharacter,
    /// The type is `f` or `B`, which are not encoded.
    UnsupportedType,
    /// The type is none of `A`, `i`, `Z`, `f`, `B`.
    UnknownType,
}

/// The three parts of an optional field: what stands before the first
/// colon, between the first and the second, and after the second.
pub open spec fn tag_parts(field: Seq<char>) -> Option<(Seq<char>, Seq<char>, Seq<char>)> {
    let a = first_index_of(field, ':');
    if 0 <= a < field.len() {
        let rest = field.skip(a + 1);
        let b = first_index_of(rest, ':');
        if 0 <= b < rest.len() {
            Some((field.take(a), rest.take(b), rest.skip(b + 1)))
        } else {
            None
        }
    } else {
        None
    }
}

/// The bytes that an optional field adds to a record, or why it adds none.
///
/// - `A`: the tag's bytes, `A`, and the first byte of the value;
/// - `i`: the tag's bytes, `i`, and the value as four little-endian bytes;
/// - `Z`: the tag's bytes, `Z`, the value's bytes and a zero byte.
pub open spec fn tag_encoding(field: Seq<char>) -> Result<Seq<u8>, TagIssue> {
    match tag_parts(field) {
        None => Err(TagIssue::Malformed),
        Some((tag, code, value)) => {
            if code == seq!['A'] {
                if encode_utf8(value).len() == 0 {
                    Err(TagIssue::EmptyCharacter)
                } else {
                    Ok(encode_utf8(tag) + seq![0x41u8, encode_utf8(value)[0]])
                }
            } else if code == seq!['i'] {
                match parse_decimal(value, true, -0x8000_0000, 0x7fff_ffff) {
                    Some(v) => Ok(encode_utf8(tag) + seq![0x69u8] + le32_signed(v as i32)),
                    None => Err(TagIssue::BadInteger),
                }
            } else if code == seq!['Z'] {
                Ok(encode_utf8(tag) + seq![0x5au8] + encode_utf8(value) + seq![0u8])
            } else if code == seq!['f'] || code == seq!['B'] {
                Err(TagIssue::UnsupportedType)
            } else {
                Err(TagIssue::UnknownType)
            }
        },
    }
}

/// An integer field whose value denotes `v` is encoded as the tag's bytes,
/// `i`, and four bytes that read back as `v`.
pub proof fn lemma_integer_tag_roundtrip(field: Seq<char>, tag: Seq<char>, value: Seq<char>, v: i32)
    requires
        tag_parts(field) == Some((tag, seq!['i'], value)),
        parse_decimal(value, true, -0x8000_0000, 0x7fff_ffff) == Some(v as int),
    ensures
        tag_encoding(field) == Ok::<Seq<u8>, TagIssue>(
            encode_utf8(tag) + seq![0x69u8] + le32_signed(v),
        ),
        le32_signed(v).len() == 4,
        le32_signed_value(le32_signed(v)) == v,
{
    lemma_le32_signed_roundtrip(v);
    assert(seq!['i'][0] != seq!['A'][0]);
}

/// Encodes one optional field.
pub fn encode_tag(field: &str) -> (r: Result<Vec<u8>, TagIssue>)
    ensures
        match r {
            Ok(bytes) => tag_encoding(field@) == Ok::<Seq<u8>, TagIssue>(bytes@),
            Err(issue) => tag_encoding(field@) == Err::<Seq<u8>, TagIssue>(issue),
        },
{
    let chars = to_chars(field);
    let n = chars.len();
    proof {
        assert(field@.skip(0) =~= field@);
    }
    let a = index_of(&chars, 0, ':');
    if a >= n {
        return Err(TagIssue::Malformed);
    }
    let b = index_of(&chars, a + 1, ':');
    if b >= n {
        return Err(TagIssue::Malformed);
    }
    let tag = field.substring_char(0, a);
    let code = field.substring_char(a + 1, b);
    let value = field.substring_char(b + 1, n);
    proof {
        let rest = field@.skip(a + 1);
        assert(field@.take(a as int) =~= field@.subrange(0, a as int));
        assert(rest.take(b - a - 1) =~= field@.subrange(a + 1, b as int));
        assert(rest.skip(b - a - 1 + 1) =~= field@.subrange(b + 1, n as int));
        assert(tag_parts(field@) == Some((tag@, code@, value@)));
        reveal_strlit("A");
        reveal_strlit("i");
        reveal_strlit("Z");
        reveal_strlit("f");
        reveal_strlit("B");
        assert("A"@ =~= seq!['A']);
        assert("i"@ =~= seq!['i']);
        assert("Z"@ =~= seq!['Z']);
        assert("f"@ =~= seq!['f']);
        assert("B"@ =~= seq!['B']);
    }
    let mut out: Vec<u8> = Vec::new();
    if str_eq(code, "A") {
        let bytes = value.as_bytes();
        if bytes.len() == 0 {
            return Err(TagIssue::EmptyCharacter);
        }
        append(&mut out, tag.as_bytes());
        out.push(0x41);
        out.push(bytes[0]);
        proof {
            assert(out@ =~= encode_utf8(tag@) + seq![0x41u8, encode_utf8(value@)[0]]);
        }
        Ok(out)
    } else if str_eq(code, "i") {
        match parse_i32(value) {
            Some(v) => {
                append(&mut out, tag.as_bytes());
                out.push(0x69);
                push_i32(&mut out, v);
                proof {
                    assert(out@ =~= encode_utf8(tag@) + seq![0x69u8] + le32_signed(v));
                }
                Ok(out)
            },
            None => Err(TagIssue::BadInteger),
        }
    } else if str_eq(code, "Z") {
        append(&mut out, tag.as_bytes());
        out.push(0x5a);
        append(&mut out, value.as_bytes());
        out.push(0);
        proof {
            assert(out@ =~= encode_utf8(tag@) + seq![0x5au8] + encode_utf8(value@) + seq![0u8]);
        }
        Ok(out)
    } else if str_eq(code, "f") || str_eq(code, "B") {
        Err(TagIssue::UnsupportedType)
    } else {
        Err(TagIssue::UnknownType)
    }
}

} // verus!
