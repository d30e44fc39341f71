//! CIGAR strings: runs of digits, each closed by an operation character,
//! packed into one 32-bit word per operation.

use crate::decimal::all_digits;
use crate::decimal::decimal_value;
use crate::decimal::is_digit;
use crate::endian::le32;
use crate::endian::le32_value;
use crate::endian::push_u32;
use crate::text::to_chars;
use vstd::prelude::*;

verus! {

/// The code of an operation character; 15 for one outside the table.
pub open spec fn op_code(c: char) -> u8 {
    if c == 'M' {
        0
    } else if c == 'I' {
        1
    } else if c == 'D' {
        2
    } else if c == 'N' {
        3
    } else if c == 'S' {
        4
    } else if c == 'H' {
        5
    } else if c == 'P' {
        6
    } else if c == '=' {
        7
    } else if c == 'X' {
        8
    } else {
        15
    }
}

/// Whether `c` stands in the table of operation characters.
pub open spec fn is_op_letter(c: char) -> bool {
    c == 'M' || c == 'I' || c == 'D' || c == 'N' || c == 'S' || c == 'H' || c == 'P' || c == '='
        || c == 'X'
}

/// The operation character that a code stands for, if it stands for one.
pub open spec fn op_letter(code: u8) -> Option<char> {
    if code == 0 {
        Some('M')
    } else if code == 1 {
        Some('I')
    } else if code == 2 {
        Some('D')
    } else if code == 3 {
        Some('N')
    } else if code == 4 {
        Some('S')
    } else if code == 5 {
        Some('H')
    } else if code == 6 {
        Some('P')
    } else if code == 7 {
        Some('=')
    } else if code == 8 {
        Some('X')
    } else {
        None
    }
}

/// The number of digits that `s` begins with.
pub open spec fn digit_run(s: Seq<char>) -> int
    decreases s.len(),
{
    if s.len() == 0 || !is_digit(s[0]) {
        0
    } else {
        1 + digit_run(s.skip(1))
    }
}

/// `digit_run` is the one offset before which only digits stand and at
/// which `s` ends or holds something else.
pub proof fn lemma_digit_run(s: Seq<char>, k: int)
    requires
        0 <= k <= s.len(),
        forall|j: int| 0 <= j < k ==> is_digit(s[j]),
        k == s.len() || !is_digit(s[k]),
    ensures
        digit_run(s) == k,
    decreases s.len(),
{
    if k > 0 {
        let t = s.skip(1);
        assert forall|j: int| 0 <= j < k - 1 implies is_digit(t[j]) by {
            assert(t[j] == s[j + 1]);
        }
        lemma_digit_run(t, k - 1);
    }
}

/// The operations that `s` spells out, each with the number that the digits
/// before its character denote (0 where there are none). Digits that no
/// character follows belong to no operation.
pub open spec fn cigar_terms(s: Seq<char>) -> Seq<(nat, char)>
    decreases s.len(),
{
    let k = digit_run(s);
    if 0 <= k < s.len() {
        seq![(decimal_value(s.take(k)), s[k])] + cigar_terms(s.skip(k + 1))
    } else {
        Seq::empty()
    }
}

/// The length that a word carries for a run that denotes `n`: `n` itself
/// where 32 bits hold it, else 0.
pub open spec fn stored_length(n: nat) -> u32 {
    if n <= u32::MAX {
        n as u32
    } else {
        0
    }
}

/// The word of one operation: the length shifted left by four bits, over
/// the operation's code.
pub open spec fn cigar_word(n: nat, c: char) -> u32 {
    (stored_length(n) << 4) | (op_code(c) as u32)
}

/// The words of `terms` one after the other, four little-endian bytes each.
pub open spec fn words_bytes(terms: Seq<(nat, char)>) -> Seq<u8>
    decreases terms.len(),
{
    if terms.len() == 0 {
        Seq::empty()
    } else {
        words_bytes(terms.drop_last()) + le32(cigar_word(terms.last().0, terms.last().1))
    }
}

/// The packed form of the CIGAR string `s`.
pub open spec fn cigar_bytes(s: Seq<char>) -> Seq<u8> {
    words_bytes(cigar_terms(s))
}

/// What a reader takes from one word: the length above the low four bits,
/// and the operation character of the code in them.
pub open spec fn decode_word(w: u32) -> (nat, Option<char>) {
    ((w >> 4) as nat, op_letter((w & 0xf) as u8))
}

/// What a reader takes from packed operations, word by word.
pub open spec fn decoded_cigar(bytes: Seq<u8>) -> Seq<(nat, Option<char>)> {
    Seq::new(
        bytes.len() / 4,
        |i: int| decode_word(le32_value(bytes.subrange(4 * i, 4 * i + 4)) as u32),
    )
}

/// `terms` as a reader would give them back.
pub open spec fn as_decoded(terms: Seq<(nat, char)>) -> Seq<(nat, Option<char>)> {
    Seq::new(terms.len(), |i: int| (terms[i].0, Some(terms[i].1)))
}

/// Whether a word holds the operation `(n, c)` without loss: the length
/// fits in 28 bits and the character stands in the table.
pub open spec fn representable(n: nat, c: char) -> bool {
    n < 0x1000_0000 && is_op_letter(c)
}

/// A word gives back the operation it was made from.
pub proof fn lemma_word_roundtrip(n: nat, c: char)
    requires
        representable(n, c),
    ensures
        decode_word(cigar_word(n, c)) == (n, Some(c)),
{
    let len: u32 = n as u32;
    let code: u32 = op_code(c) as u32;
    assert(((len << 4) | code) >> 4 == len && ((len << 4) | code) & 0xf == code) by (bit_vector)
        requires
            len < 0x1000_0000,
            code < 16,
    ;
}

/// The packed form holds four bytes for each operation.
pub proof fn lemma_words_bytes_len(terms: Seq<(nat, char)>)
    ensures
        words_bytes(terms).len() == 4 * terms.len(),
    decreases terms.len(),
{
    if terms.len() > 0 {
        lemma_words_bytes_len(terms.drop_last());
    }
}

/// Word `i` of the packed form is the word of operation `i`.
pub proof fn lemma_words_bytes_at(terms: Seq<(nat, char)>, i: int)
    requires
        0 <= i < terms.len(),
    ensures
        words_bytes(terms).len() == 4 * terms.len(),
        words_bytes(terms).subrange(4 * i, 4 * i + 4) == le32(cigar_word(terms[i].0, terms[i].1)),
    decreases terms.len(),
{
    lemma_words_bytes_len(terms);
    let front = terms.drop_last();
    lemma_words_bytes_len(front);
    let word = le32(cigar_word(terms.last().0, terms.last().1));
    if i < terms.len() - 1 {
        lemma_words_bytes_at(front, i);
        assert(words_bytes(terms).subrange(4 * i, 4 * i + 4) =~= words_bytes(front).subrange(
            4 * i,
            4 * i + 4,
        ));
    } else {
        assert(words_bytes(terms).subrange(4 * i, 4 * i + 4) =~= word);
    }
}

/// Decoding the packed form of operations that words hold without loss
/// gives those operations back, in order.
pub proof fn lemma_terms_roundtrip(terms: Seq<(nat, char)>)
    requires
        forall|i: int| 0 <= i < terms.len() ==> representable(terms[i].0, terms[i].1),
    ensures
        decoded_cigar(words_bytes(terms)) == as_decoded(terms),
{
    lemma_words_bytes_len(terms);
    let decoded = decoded_cigar(words_bytes(terms));
    assert(decoded.len() == terms.len());
    assert forall|i: int| 0 <= i < terms.len() implies decoded[i] == as_decoded(terms)[i] by {
        lemma_words_bytes_at(terms, i);
        let w = cigar_word(terms[i].0, terms[i].1);
        crate::endian::lemma_le32_roundtrip(w);
        lemma_word_roundtrip(terms[i].0, terms[i].1);
    }
    assert(decoded =~= as_decoded(terms));
}

/// For a CIGAR string whose lengths fit in 28 bits and whose operation
/// characters stand in the table, decoding the packed words gives back the
/// lengths and characters that the string spells out, in order.
pub proof fn lemma_cigar_text_roundtrip(s: Seq<char>)
    requires
        forall|i: int|
            0 <= i < cigar_terms(s).len() ==> representable(
                cigar_terms(s)[i].0,
                cigar_terms(s)[i].1,
            ),
    ensures
        decoded_cigar(cigar_bytes(s)) == as_decoded(cigar_terms(s)),
{
    lemma_terms_roundtrip(cigar_terms(s));
}

/// The text that writes out `ops`: for each operation its digits, then its
/// character.
pub open spec fn spelled(ops: Seq<(Seq<char>, char)>) -> Seq<char>
    decreases ops.len(),
{
    if ops.len() == 0 {
        Seq::empty()
    } else {
        ops[0].0 + seq![ops[0].1] + spelled(ops.skip(1))
    }
}

/// The operations that `ops` denotes: for each the number that its digits
/// denote, and its character.
pub open spec fn denoted(ops: Seq<(Seq<char>, char)>) -> Seq<(nat, char)> {
    Seq::new(ops.len(), |i: int| (decimal_value(ops[i].0), ops[i].1))
}

/// A text made of runs of digits, each followed by a character that is no
/// digit, spells out exactly those runs and characters.
pub proof fn lemma_terms_of_spelled(ops: Seq<(Seq<char>, char)>)
    requires
        forall|i: int| 0 <= i < ops.len() ==> all_digits(ops[i].0) && !is_digit(ops[i].1),
    ensures
        cigar_terms(spelled(ops)) == denoted(ops),
    decreases ops.len(),
{
    if ops.len() == 0 {
        assert(cigar_terms(spelled(ops)) =~= denoted(ops));
    } else {
        let digits = ops[0].0;
        let c = ops[0].1;
        let later = ops.skip(1);
        let s = spelled(ops);
        assert forall|i: int| 0 <= i < later.len() implies all_digits(later[i].0) && !is_digit(
            later[i].1,
        ) by {
            assert(later[i] == ops[i + 1]);
        }
        lemma_terms_of_spelled(later);
        assert forall|j: int| 0 <= j < digits.len() implies is_digit(s[j]) by {
            assert(s[j] == digits[j]);
        }
        assert(s[digits.len() as int] == c);
        lemma_digit_run(s, digits.len() as int);
        assert(s.take(digits.len() as int) =~= digits);
        assert(s.skip(digits.len() as int + 1) =~= spelled(later));
        assert(cigar_terms(s) =~= denoted(ops)) by {
            assert forall|i: int| 1 <= i < ops.len() implies denoted(ops)[i] == denoted(later)[i
                - 1] by {
                assert(later[i - 1] == ops[i]);
            }
        }
    }
}

/// For a CIGAR string made of runs of digits, each followed by an operation
/// character of the table, whose lengths fit in 28 bits, decoding the
/// packed words gives back the lengths and characters, in order.
pub proof fn lemma_cigar_roundtrip(ops: Seq<(Seq<char>, char)>)
    requires
        forall|i: int|
            0 <= i < ops.len() ==> all_digits(ops[i].0) && representable(
                decimal_value(ops[i].0),
                ops[i].1,
            ),
    ensures
        decoded_cigar(cigar_bytes(spelled(ops))) == as_decoded(denoted(ops)),
{
    lemma_terms_of_spelled(ops);
    lemma_terms_roundtrip(denoted(ops));
}

/// The code of the operation character `c`.
pub fn code_of_op(c: char) -> (code: u8)
    ensures
        code == op_code(c),
        code < 16,
{
    if c == 'M' {
        0
    } else if c == 'I' {
        1
    } else if c == 'D' {
        2
    } else if c == 'N' {
        3
    } else if c == 'S' {
        4
    } else if c == 'H' {
        5
    } else if c == 'P' {
        6
    } else if c == '=' {
        7
    } else if c == 'X' {
        8
    } else {
        15
    }
}

/// Reads the digits at `from`: where they end, and the length they store.
fn scan_length(chars: &Vec<char>, from: usize) -> (r: (usize, u32))
    requires
        from <= chars.len(),
    ensures
        from <= r.0 <= chars.len(),
        r.0 - from == digit_run(chars@.skip(from as int)),
        r.1 == stored_length(decimal_value(chars@.subrange(from as int, r.0 as int))),
{
    let n = chars.len();
    let mut i: usize = from;
    let mut value: u64 = 0;
    let mut fits: bool = true;
    while i < n && '0' <= chars[i] && chars[i] <= '9'
        invariant
            from <= i <= n,
            n == chars.len(),
            forall|j: int| from <= j < i ==> is_digit(chars@[j]),
            fits ==> value == decimal_value(chars@.subrange(from as int, i as int)),
            fits ==> value <= u32::MAX,
            !fits ==> decimal_value(chars@.subrange(from as int, i as int)) > u32::MAX,
        decreases n - i,
    {
        let c = chars[i];
        proof {
            let longer = chars@.subrange(from as int, i + 1);
            assert(longer.drop_last() =~= chars@.subrange(from as int, i as int));
            assert(longer.last() == c);
        }
        if fits {
            let next: u64 = value * 10 + ((c as u64) - ('0' as u64));
            if next > 0xffff_ffff {
                fits = false;
            } else {
                value = next;
            }
        }
        i += 1;
    }
    proof {
        let rest = chars@.skip(from as int);
        assert forall|j: int| 0 <= j < i - from implies is_digit(rest[j]) by {
            assert(rest[j] == chars@[from + j]);
        }
        lemma_digit_run(rest, i - from);
    }
    if fits {
        (i, value as u32)
    } else {
        (i, 0)
    }
}

/// Packs the operations of a CIGAR string, one 32-bit word each.
pub fn encode_cigar(cigar: &str) -> (out: Vec<u8>)
    ensures
        out@ == cigar_bytes(cigar@),
{
    let chars = to_chars(cigar);
    let n = chars.len();
    let mut out: Vec<u8> = Vec::new();
    let mut start: usize = 0;
    let ghost mut done: Seq<(nat, char)> = Seq::empty();
    proof {
        assert(cigar@.skip(0) =~= cigar@);
        assert(done + cigar_terms(cigar@) =~= cigar_terms(cigar@));
    }
    loop
        invariant
            chars@ == cigar@,
            n == chars.len(),
            start <= n,
            out@ == words_bytes(done),
            done + cigar_terms(cigar@.skip(start as int)) == cigar_terms(cigar@),
        decreases n - start,
    {
        let (k, length) = scan_length(&chars, start);
        let ghost rest = cigar@.skip(start as int);
        if k >= n {
            proof {
                assert(cigar_terms(rest) =~= Seq::<(nat, char)>::empty());
                assert(done + cigar_terms(rest) =~= done);
            }
            return out;
        }
        let c = chars[k];
        let code = code_of_op(c);
        let word: u32 = (length << 4) | (code as u32);
        push_u32(&mut out, word);
        proof {
            let term = (decimal_value(rest.take(k - start)), c);
            assert(rest.take(k - start) =~= cigar@.subrange(start as int, k as int));
            assert(rest.skip(k - start + 1) =~= cigar@.skip(k + 1));
            assert(cigar_terms(rest) == seq![term] + cigar_terms(rest.skip(k - start + 1)));
            let longer = done.push(term);
            assert(longer.drop_last() =~= done);
            assert(word == cigar_word(term.0, term.1));
            assert(longer + cigar_terms(cigar@.skip(k + 1)) =~= done + cigar_terms(rest));
            done = longer;
        }
        start = k + 1;
    }
}

/// Whether `c` is a letter of the basic Latin alphabet.
pub open spec fn is_alphabetic(c: char) -> bool {
    ('A' <= c && c <= 'Z') || ('a' <= c && c <= 'z')
}

/// How many characters of `s` are letters.
pub open spec fn letter_count(s: Seq<char>) -> nat
    decreases s.len(),
{
    if s.len() == 0 {
        0
    } else {
        letter_count(s.drop_last()) + if is_alphabetic(s.last()) {
            1nat
        } else {
            0nat
        }
    }
}

/// The number of letters in `cigar`.
pub fn count_letters(cigar: &str) -> (count: usize)
    ensures
        count == letter_count(cigar@),
{
    let chars = to_chars(cigar);
    let n = chars.len();
    let mut count: usize = 0;
    let mut i: usize = 0;
    while i < n
        invariant
            chars@ == cigar@,
            n == chars.len(),
            i <= n,
            count <= i,
            count == letter_count(cigar@.take(i as int)),
        decreases n - i,
    {
        let c = chars[i];
        proof {
            assert(cigar@.take(i + 1).drop_last() =~= cigar@.take(i as int));
        }
        if ('A' <= c && c <= 'Z') || ('a' <= c && c <= 'z') {
            count += 1;
        }
        i += 1;
    }
    proof {
        assert(cigar@.take(n as int) =~= cigar@);
    }
    count
}

} // verus!
