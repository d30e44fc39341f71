//! Text primitives: characters of a string, field splitting, prefixes.
//!
//! A piece of text is modelled by its sequence of characters; its bytes are
//! its UTF-8 encoding.

use vstd::prelude::*;
use vstd::string::StrSliceExecFns;
use vstd::utf8::encode_utf8;
use vstd::utf8::encode_utf8_decode_utf8;

verus! {

/// The characters of `s`, in order.
pub fn to_chars(s: &str) -> (out: Vec<char>)
    ensures
        out@ == s@,
{
    let mut out: Vec<char> = Vec::new();
    for c in it: s.chars()
        invariant
            it.seq() == s@,
            out@ == s@.take(it.index() as int),
    {
        out.push(c);
    }
    out
}

/// Two texts with the same UTF-8 bytes are the same text.
pub proof fn lemma_utf8_injective(a: Seq<char>, b: Seq<char>)
    requires
        encode_utf8(a) == encode_utf8(b),
    ensures
        a == b,
{
    encode_utf8_decode_utf8(a);
    encode_utf8_decode_utf8(b);
}

/// Whether two strings hold the same text.
pub fn str_eq(a: &str, b: &str) -> (same: bool)
    ensures
        same == (a@ == b@),
{
    let x = a.as_bytes();
    let y = b.as_bytes();
    if x.len() != y.len() {
        proof {
            if a@ == b@ {
                assert(encode_utf8(a@) == encode_utf8(b@));
            }
        }
        return false;
    }
    let mut i: usize = 0;
    while i < x.len()
        invariant
            i <= x.len(),
            x.len() == y.len(),
            x@ == encode_utf8(a@),
            y@ == encode_utf8(b@),
            forall|j: int| 0 <= j < i ==> x@[j] == y@[j],
        decreases x.len() - i,
    {
        if x[i] != y[i] {
            return false;
        }
        i += 1;
    }
    proof {
        assert(x@ =~= y@);
        lemma_utf8_injective(a@, b@);
    }
    true
}

/// The offset of the first `sep` in `s`, or the length of `s` where it holds none.
pub open spec fn first_index_of(s: Seq<char>, sep: char) -> int
    decreases s.len(),
{
    if s.len() == 0 || s[0] == sep {
        0
    } else {
        1 + first_index_of(s.skip(1), sep)
    }
}

/// `first_index_of` is the one offset before which no `sep` stands and at
/// which `s` ends or holds `sep`.
pub proof fn lemma_first_index_of(s: Seq<char>, sep: char, k: int)
    requires
        0 <= k <= s.len(),
        forall|j: int| 0 <= j < k ==> s[j] != sep,
        k == s.len() || s[k] == sep,
    ensures
        first_index_of(s, sep) == k,
    decreases s.len(),
{
    if k > 0 {
        let t = s.skip(1);
        assert forall|j: int| 0 <= j < k - 1 implies t[j] != sep by {
            assert(t[j] == s[j + 1]);
        }
        lemma_first_index_of(t, sep, k - 1);
    }
}

/// The position of the first `sep` at or after `from`, or the length of
/// `chars` where none follows.
pub fn index_of(chars: &Vec<char>, from: usize, sep: char) -> (k: usize)
    requires
        from <= chars.len(),
    ensures
        from <= k <= chars.len(),
        k - from == first_index_of(chars@.skip(from as int), sep),
{
    let mut k: usize = from;
    while k < chars.len() && chars[k] != sep
        invariant
            from <= k <= chars.len(),
            forall|j: int| from <= j < k ==> chars@[j] != sep,
        decreases chars.len() - k,
    {
        k += 1;
    }
    proof {
        lemma_first_index_of(chars@.skip(from as int), sep, k - from);
    }
    k
}

/// The pieces of `s` between occurrences of `sep`: one more piece than
/// there are separators, empty pieces included.
pub open spec fn split_on(s: Seq<char>, sep: char) -> Seq<Seq<char>>
    decreases s.len(),
{
    let k = first_index_of(s, sep);
    if 0 <= k < s.len() {
        seq![s.take(k)] + split_on(s.skip(k + 1), sep)
    } else {
        seq![s]
    }
}

/// The texts of a sequence of string slices.
pub open spec fn texts(pieces: Seq<&str>) -> Seq<Seq<char>> {
    Seq::new(pieces.len(), |i: int| pieces[i]@)
}

/// Splits `line` at every `sep`.
pub fn split<'a>(line: &'a str, sep: char) -> (pieces: Vec<&'a str>)
    ensures
        texts(pieces@) == split_on(line@, sep),
{
    let chars = to_chars(line);
    let n = chars.len();
    let mut pieces: Vec<&'a str> = Vec::new();
    let mut start: usize = 0;
    proof {
        assert(line@.skip(0) =~= line@);
        assert(texts(pieces@) + split_on(line@, sep) =~= split_on(line@, sep));
    }
    loop
        invariant
            chars@ == line@,
            n == chars.len(),
            start <= n,
            texts(pieces@) + split_on(line@.skip(start as int), sep) == split_on(line@, sep),
        decreases n - start,
    {
        let k = index_of(&chars, start, sep);
        let piece = line.substring_char(start, k);
        let ghost rest = line@.skip(start as int);
        let ghost before = pieces@;
        pieces.push(piece);
        proof {
            assert(rest.take(k - start) =~= line@.subrange(start as int, k as int));
            assert(texts(pieces@) =~= texts(before) + seq![piece@]);
        }
        if k >= n {
            proof {
                assert(split_on(rest, sep) == seq![rest]);
                assert(rest =~= piece@);
            }
            return pieces;
        }
        proof {
            assert(rest.skip(k - start + 1) =~= line@.skip(k + 1));
            assert(split_on(rest, sep) == seq![rest.take(k - start)] + split_on(
                rest.skip(k - start + 1),
                sep,
            ));
            assert(texts(pieces@) + split_on(line@.skip(k + 1), sep) =~= texts(before) + split_on(
                rest,
                sep,
            ));
        }
        start = k + 1;
    }
}

/// Whether `s` begins with `prefix`.
pub open spec fn has_prefix(s: Seq<char>, prefix: Seq<char>) -> bool {
    prefix.len() <= s.len() && s.take(prefix.len() as int) == prefix
}

/// Whether `s` begins with `prefix`.
pub fn starts_with(s: &str, prefix: &str) -> (yes: bool)
    ensures
        yes == has_prefix(s@, prefix@),
{
    let a = to_chars(s);
    let p = to_chars(prefix);
    if p.len() > a.len() {
        return false;
    }
    let mut i: usize = 0;
    while i < p.len()
        invariant
            i <= p.len() <= a.len(),
            a@ == s@,
            p@ == prefix@,
            forall|j: int| 0 <= j < i ==> a@[j] == p@[j],
        decreases p.len() - i,
    {
        if a[i] != p[i] {
            proof {
                assert(s@.take(prefix@.len() as int)[i as int] == s@[i as int]);
            }
            return false;
        }
        i += 1;
    }
    proof {
        assert(s@.take(prefix@.len() as int) =~= prefix@);
    }
    true
}

/// What follows the first `n` characters of `s`.
pub fn tail<'a>(s: &'a str, n: usize) -> (rest: &'a str)
    requires
        n <= s@.len(),
    ensures
        rest@ == s@.skip(n as int),
{
    let len = s.unicode_len();
    let rest = s.substring_char(n, len);
    proof {
        assert(s@.subrange(n as int, len as int) =~= s@.skip(n as int));
    }
    rest
}

} // verus!
