//! The reference dictionary: the named sequences that a header declares,
//! in the order of their declaration, and how a record names one of them.

use crate::decimal::parse_decimal;
use crate::decimal::parse_u32;
use crate::endian::append;
use crate::text::has_prefix;
use crate::text::split;
use crate::text::split_on;
use crate::text::starts_with;
use crate::text::str_eq;
use crate::text::tail;
use crate::text::texts;
use vstd::prelude::*;
use vstd::utf8::encode_utf8;

verus! {

/// A reference sequence as a header declares it.
#[derive(Clone, Debug)]
pub struct Reference {
    pub name: String,
    pub length: u32,
}

/// What a `Reference` holds: the text of its name, and its length.
pub struct ReferenceEntry {
    pub name: Seq<char>,
    pub length: u32,
}

impl View for Reference {
    type V = ReferenceEntry;

    open spec fn view(&self) -> ReferenceEntry {
        ReferenceEntry { name: self.name@, length: self.length }
    }
}

/// What a list of references holds, entry by entry.
pub open spec fn entries(refs: Seq<Reference>) -> Seq<ReferenceEntry> {
    Seq::new(refs.len(), |i: int| refs[i]@)
}

/// The texts of a list of lines.
pub open spec fn line_texts(lines: Seq<String>) -> Seq<Seq<char>> {
    Seq::new(lines.len(), |i: int| lines[i]@)
}

/// Whether a line belongs to the header: it begins with `@`.
pub open spec fn is_header(line: Seq<char>) -> bool {
    has_prefix(line, seq!['@'])
}

/// Whether a header line declares a reference sequence: it begins with `@SQ`.
pub open spec fn is_declaration(line: Seq<char>) -> bool {
    has_prefix(line, seq!['@', 'S', 'Q'])
}

/// The name that the fields of a declaration give: what follows `SN:` in
/// the last field that begins so.
pub open spec fn declared_name(fields: Seq<Seq<char>>) -> Option<Seq<char>>
    decreases fields.len(),
{
    if fields.len() == 0 {
        None
    } else if has_prefix(fields.last(), seq!['S', 'N', ':']) {
        Some(fields.last().skip(3))
    } else {
        declared_name(fields.drop_last())
    }
}

/// The length that the fields of a declaration give: the number that
/// follows `LN:` in the last field that begins so, if it is one that 32
/// bits hold.
pub open spec fn declared_length(fields: Seq<Seq<char>>) -> Option<u32>
    decreases fields.len(),
{
    if fields.len() == 0 {
        None
    } else if has_prefix(fields.last(), seq!['L', 'N', ':']) {
        match parse_decimal(fields.last().skip(3), false, 0, 0xffff_ffff) {
            Some(v) => Some(v as u32),
            None => None,
        }
    } else {
        declared_length(fields.drop_last())
    }
}

/// The reference that a line declares: the line is a declaration whose
/// tab-separated fields give both a name and a length.
pub open spec fn declared_reference(line: Seq<char>) -> Option<ReferenceEntry> {
    let fields = split_on(line, '\t');
    if is_declaration(line) && declared_name(fields) is Some && declared_length(fields) is Some {
        Some(
            ReferenceEntry {
                name: declared_name(fields)->0,
                length: declared_length(fields)->0,
            },
        )
    } else {
        None
    }
}

/// The header text of an input: its header lines in order, each followed
/// by a line feed.
pub open spec fn header_text(lines: Seq<Seq<char>>) -> Seq<u8>
    decreases lines.len(),
{
    if lines.len() == 0 {
        Seq::empty()
    } else if is_header(lines.last()) {
        header_text(lines.drop_last()) + encode_utf8(lines.last()) + seq![0x0au8]
    } else {
        header_text(lines.drop_last())
    }
}

/// The references that an input declares, in the order of their lines.
pub open spec fn declared_references(lines: Seq<Seq<char>>) -> Seq<ReferenceEntry>
    decreases lines.len(),
{
    if lines.len() == 0 {
        Seq::empty()
    } else if declared_reference(lines.last()) is Some {
        declared_references(lines.drop_last()).push(declared_reference(lines.last())->0)
    } else {
        declared_references(lines.drop_last())
    }
}

/// The index of the first entry of `dict` named `name`, or the length of
/// `dict` where none is.
pub open spec fn first_named(dict: Seq<ReferenceEntry>, name: Seq<char>) -> int
    decreases dict.len(),
{
    if dict.len() == 0 || dict[0].name == name {
        0
    } else {
        1 + first_named(dict.skip(1), name)
    }
}

/// Whether some entry of `dict` is named `name`.
pub open spec fn names_entry(dict: Seq<ReferenceEntry>, name: Seq<char>) -> bool {
    0 <= first_named(dict, name) < dict.len()
}

/// Whether the mate's reference is given by a name that no entry of `dict`
/// has: a name other than `*` and `=`.
pub open spec fn mate_names_none(dict: Seq<ReferenceEntry>, name: Seq<char>) -> bool {
    name != seq!['*'] && name != seq!['='] && !names_entry(dict, name)
}

/// The number by which a record refers to the reference named `name`: the
/// index of the first entry of that name, as 32 bits hold it; 0 where no
/// entry has that name.
pub open spec fn reference_id(dict: Seq<ReferenceEntry>, name: Seq<char>) -> i32 {
    let k = first_named(dict, name);
    if 0 <= k < dict.len() {
        (k as usize) as i32
    } else {
        0
    }
}

/// The number by which a record refers to its mate's reference: -1 for
/// `*`, the record's own reference for `=`, else as `reference_id`.
pub open spec fn mate_reference_id(dict: Seq<ReferenceEntry>, name: Seq<char>, own: i32) -> i32 {
    if name == seq!['*'] {
        -1i32
    } else if name == seq!['='] {
        own
    } else {
        reference_id(dict, name)
    }
}

/// `first_named` is the one index before which no entry has the name and
/// at which `dict` ends or holds an entry of that name.
pub proof fn lemma_first_named(dict: Seq<ReferenceEntry>, name: Seq<char>, k: int)
    requires
        0 <= k <= dict.len(),
        forall|j: int| 0 <= j < k ==> dict[j].name != name,
        k == dict.len() || dict[k].name == name,
    ensures
        first_named(dict, name) == k,
    decreases dict.len(),
{
    if k > 0 {
        let t = dict.skip(1);
        assert forall|j: int| 0 <= j < k - 1 implies t[j].name != name by {
            assert(t[j] == dict[j + 1]);
        }
        lemma_first_named(t, name, k - 1);
    }
}

/// `names_entry` says what its name says: some entry has the name.
pub proof fn lemma_names_entry(dict: Seq<ReferenceEntry>, name: Seq<char>)
    ensures
        0 <= first_named(dict, name) <= dict.len(),
        names_entry(dict, name) <==> exists|j: int|
            0 <= j < dict.len() && (#[trigger] dict[j]).name == name,
    decreases dict.len(),
{
    if dict.len() == 0 {
    } else if dict[0].name == name {
        assert(0 <= 0 < dict.len() && dict[0].name == name);
    } else {
        let t = dict.skip(1);
        lemma_names_entry(t, name);
        if names_entry(t, name) {
            let j = choose|j: int| 0 <= j < t.len() && (#[trigger] t[j]).name == name;
            assert(dict[j + 1] == t[j]);
            assert(0 <= j + 1 < dict.len() && dict[j + 1].name == name);
        }
        if exists|j: int| 0 <= j < dict.len() && (#[trigger] dict[j]).name == name {
            let j = choose|j: int| 0 <= j < dict.len() && (#[trigger] dict[j]).name == name;
            assert(t[j - 1] == dict[j]);
            assert(0 <= j - 1 < t.len() && t[j - 1].name == name);
        }
    }
}

/// A name resolves to the index of the entry that declares it, where no
/// earlier entry has the same name.
pub proof fn lemma_resolves_to_declared_index(dict: Seq<ReferenceEntry>, k: int)
    requires
        0 <= k < dict.len(),
        k <= i32::MAX,
        forall|j: int| 0 <= j < k ==> dict[j].name != dict[k].name,
    ensures
        reference_id(dict, dict[k].name) == k,
{
    lemma_first_named(dict, dict[k].name, k);
}

/// A name that no entry has resolves to 0.
pub proof fn lemma_unknown_resolves_to_zero(dict: Seq<ReferenceEntry>, name: Seq<char>)
    requires
        forall|j: int| 0 <= j < dict.len() ==> dict[j].name != name,
    ensures
        reference_id(dict, name) == 0,
{
    lemma_first_named(dict, name, dict.len() as int);
}

/// Declarations keep the order of their lines: the references of two
/// inputs one after the other are those of the first, then those of the
/// second.
pub proof fn lemma_references_in_line_order(first: Seq<Seq<char>>, second: Seq<Seq<char>>)
    ensures
        declared_references(first + second) == declared_references(first) + declared_references(
            second,
        ),
    decreases second.len(),
{
    if second.len() == 0 {
        assert(first + second =~= first);
        assert(declared_references(first) + declared_references(second) =~= declared_references(
            first,
        ));
    } else {
        lemma_references_in_line_order(first, second.drop_last());
        assert((first + second).drop_last() =~= first + second.drop_last());
        assert((first + second).last() == second.last());
        if declared_reference(second.last()) is Some {
            let r = declared_reference(second.last())->0;
            assert((declared_references(first) + declared_references(second.drop_last())).push(r)
                =~= declared_references(first) + declared_references(second.drop_last()).push(r));
        }
    }
}

/// Whether `line` belongs to the header.
pub fn is_header_line(line: &str) -> (yes: bool)
    ensures
        yes == is_header(line@),
{
    proof {
        reveal_strlit("@");
        assert("@"@ =~= seq!['@']);
    }
    starts_with(line, "@")
}

/// The reference that `line` declares, if it declares one.
pub fn parse_reference(line: &str) -> (r: Option<Reference>)
    ensures
        match r {
            Some(reference) => declared_reference(line@) == Some(reference@),
            None => declared_reference(line@) is None,
        },
{
    proof {
        reveal_strlit("@SQ");
        reveal_strlit("SN:");
        reveal_strlit("LN:");
        assert("@SQ"@ =~= seq!['@', 'S', 'Q']);
        assert("SN:"@ =~= seq!['S', 'N', ':']);
        assert("LN:"@ =~= seq!['L', 'N', ':']);
    }
    if !starts_with(line, "@SQ") {
        return None;
    }
    let fields = split(line, '\t');
    let ghost all = split_on(line@, '\t');
    let mut name: Option<&str> = None;
    let mut length: Option<u32> = None;
    let mut i: usize = 0;
    while i < fields.len()
        invariant
            i <= fields.len(),
            texts(fields@) == all,
            "SN:"@ == seq!['S', 'N', ':'],
            "LN:"@ == seq!['L', 'N', ':'],
            match name {
                Some(n) => declared_name(all.take(i as int)) == Some(n@),
                None => declared_name(all.take(i as int)) is None,
            },
            length == declared_length(all.take(i as int)),
        decreases fields.len() - i,
    {
        let field = fields[i];
        proof {
            assert(all.take(i + 1).drop_last() =~= all.take(i as int));
            assert(all.take(i + 1).last() == field@);
        }
        if starts_with(field, "SN:") {
            name = Some(tail(field, 3));
        } else if starts_with(field, "LN:") {
            length = parse_u32(tail(field, 3));
        }
        i += 1;
    }
    proof {
        assert(all.take(fields.len() as int) =~= all);
    }
    match (name, length) {
        (Some(n), Some(l)) => Some(Reference { name: n.to_owned(), length: l }),
        _ => None,
    }
}

/// The header of an input: its text and the references it declares.
pub struct SamHeader {
    pub text: Vec<u8>,
    pub references: Vec<Reference>,
}

/// Gathers the header lines of an input and the references they declare.
pub fn scan_header(lines: &Vec<String>) -> (header: SamHeader)
    ensures
        header.text@ == header_text(line_texts(lines@)),
        entries(header.references@) == declared_references(line_texts(lines@)),
{
    let mut text: Vec<u8> = Vec::new();
    let mut references: Vec<Reference> = Vec::new();
    let ghost all = line_texts(lines@);
    let mut i: usize = 0;
    while i < lines.len()
        invariant
            i <= lines.len(),
            all == line_texts(lines@),
            text@ == header_text(all.take(i as int)),
            entries(references@) == declared_references(all.take(i as int)),
        decreases lines.len() - i,
    {
        let line = lines[i].as_str();
        proof {
            assert(all.take(i + 1).drop_last() =~= all.take(i as int));
            assert(all.take(i + 1).last() == line@);
        }
        if is_header_line(line) {
            append(&mut text, line.as_bytes());
            text.push(0x0a);
            let ghost before = references@;
            match parse_reference(line) {
                Some(reference) => {
                    references.push(reference);
                    proof {
                        assert(entries(references@) =~= entries(before).push(reference@));
                    }
                },
                None => {},
            }
        } else {
            proof {
                assert(declared_reference(line@) is None) by {
                    if is_declaration(line@) {
                        assert(line@.take(1) =~= line@.take(3).take(1));
                        assert(seq!['@', 'S', 'Q'].take(1) =~= seq!['@']);
                    }
                }
            }
        }
        i += 1;
    }
    proof {
        assert(all.take(lines.len() as int) =~= all);
    }
    SamHeader { text, references }
}

/// The index of the first reference named `name`, if there is one.
pub fn find_reference(references: &Vec<Reference>, name: &str) -> (found: Option<usize>)
    ensures
        match found {
            Some(k) => k < references.len() && k == first_named(entries(references@), name@),
            None => !names_entry(entries(references@), name@),
        },
{
    let ghost dict = entries(references@);
    let mut k: usize = 0;
    while k < references.len()
        invariant
            k <= references.len(),
            dict == entries(references@),
            forall|j: int| 0 <= j < k ==> dict[j].name != name@,
        decreases references.len() - k,
    {
        if str_eq(references[k].name.as_str(), name) {
            proof {
                lemma_first_named(dict, name@, k as int);
            }
            return Some(k);
        }
        k += 1;
    }
    proof {
        lemma_first_named(dict, name@, k as int);
    }
    None
}

/// The number by which a record refers to the reference named `name`.
pub fn resolve_reference(references: &Vec<Reference>, name: &str) -> (id: i32)
    ensures
        id == reference_id(entries(references@), name@),
{
    match find_reference(references, name) {
        Some(k) => #[verifier::truncate] (k as i32),
        None => 0,
    }
}

/// Whether the mate's reference is given by a name that no reference has.
pub fn mate_is_unresolved(references: &Vec<Reference>, name: &str) -> (yes: bool)
    ensures
        yes == mate_names_none(entries(references@), name@),
{
    proof {
        reveal_strlit("*");
        reveal_strlit("=");
        assert("*"@ =~= seq!['*']);
        assert("="@ =~= seq!['=']);
    }
    !str_eq(name, "*") && !str_eq(name, "=") && find_reference(references, name).is_none()
}

/// The number by which a record refers to its mate's reference.
pub fn resolve_mate(references: &Vec<Reference>, name: &str, own: i32) -> (id: i32)
    ensures
        id == mate_reference_id(entries(references@), name@, own),
{
    proof {
        reveal_strlit("*");
        reveal_strlit("=");
        assert("*"@ =~= seq!['*']);
        assert("="@ =~= seq!['=']);
    }
    if str_eq(name, "*") {
        -1
    } else if str_eq(name, "=") {
        own
    } else {
        resolve_reference(references, name)
    }
}

} // verus!
