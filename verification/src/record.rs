//! One alignment line as one binary record.

use crate::bases::encode_seq;
use crate::bases::packed_bases;
use crate::cigar::cigar_bytes;
use crate::cigar::count_letters;
use crate::cigar::encode_cigar;
use crate::cigar::letter_count;
use crate::decimal::parse_decimal;
use crate::decimal::parse_i32;
use crate::decimal::parse_u16;
use crate::decimal::parse_u8;
use crate::dictionary::entries;
use crate::dictionary::find_reference;
use crate::dictionary::mate_is_unresolved;
use crate::dictionary::mate_names_none;
use crate::dictionary::mate_reference_id;
use crate::dictionary::names_entry;
use crate::dictionary::reference_id;
use crate::dictionary::resolve_mate;
use crate::dictionary::resolve_reference;
use crate::dictionary::Reference;
use crate::dictionary::ReferenceEntry;
use crate::endian::append;
use crate::endian::le16;
use crate::endian::le32;
use crate::endian::le32_signed;
use crate::endian::le32_value;
use crate::endian::length_field;
use crate::endian::lemma_le32_roundtrip;
use crate::endian::low32;
use crate::endian::push_i32;
use crate::endian::push_u16;
use crate::endian::push_u32;
use crate::header::terminated_name;
use crate::quality::encode_qual;
use crate::quality::quality_bytes;
use crate::tags::encode_tag;
use crate::tags::tag_encoding;
use crate::tags::TagIssue;
use crate::text::split;
use crate::text::split_on;
use crate::text::texts;
use vstd::prelude::*;
use vstd::string::StrSliceExecFns;
use vstd::utf8::encode_utf8;

verus! {

/// The number of fields that every alignment line must hold.
pub const MANDATORY_FIELDS: usize = 11;

/// The number of bytes that the fixed part of a record takes after its
/// block size.
pub const FIXED_BYTES: usize = 32;

/// A mandatory numeric field.
#[derive(Clone, Copy, Debug, PartialEq, Eq, Structural)]
pub enum NumericField {
    Flag,
    Position,
    MappingQuality,
    MatePosition,
    TemplateLength,
}

/// A field that names a reference.
#[derive(Clone, Copy, Debug, PartialEq, Eq, Structural)]
pub enum ReferenceField {
    /// The record's own reference.
    Own,
    /// The reference of the record's mate.
    Mate,
}

/// An optional field that left no bytes in the record, and why.
#[derive(Clone, Copy, Debug, PartialEq, Eq, Structural)]
pub struct TagWarning {
    /// The index of the field in its line, counted from 0.
    pub field: usize,
    pub issue: TagIssue,
}

/// The flag that a field denotes; 0 where it denotes none.
pub open spec fn flag_of(field: Seq<char>) -> u16 {
    match parse_decimal(field, false, 0, 0xffff) {
        Some(v) => v as u16,
        None => 0,
    }
}

/// The mapping quality that a field denotes; 255 where it denotes none.
pub open spec fn mapping_quality_of(field: Seq<char>) -> u8 {
    match parse_decimal(field, false, 0, 0xff) {
        Some(v) => v as u8,
        None => 255,
    }
}

/// The 1-based position that a field denotes; 1 where it denotes none.
pub open spec fn one_based_of(field: Seq<char>) -> i32 {
    match parse_decimal(field, true, -0x8000_0000, 0x7fff_ffff) {
        Some(v) => v as i32,
        None => 1,
    }
}

/// The template length that a field denotes; 0 where it denotes none.
pub open spec fn template_length_of(field: Seq<char>) -> i32 {
    match parse_decimal(field, true, -0x8000_0000, 0x7fff_ffff) {
        Some(v) => v as i32,
        None => 0,
    }
}

/// A 1-based position less one, wrapping round at the least `i32`.
pub open spec fn zero_based(position: i32) -> i32 {
    if position == i32::MIN {
        i32::MAX
    } else {
        (position - 1) as i32
    }
}

/// The 0-based position that a field gives.
pub open spec fn position_of(field: Seq<char>) -> i32 {
    zero_based(one_based_of(field))
}

/// The length field of a read name: its bytes and the zero byte that ends
/// it, as 8 bits hold the sum.
pub open spec fn read_name_length(name: Seq<char>) -> u8 {
    ((encode_utf8(name).len() + 1) % 256) as u8
}

/// The operation count of a CIGAR string: its letters, as 16 bits hold
/// their number.
pub open spec fn operation_count(cigar: Seq<char>) -> u16 {
    (letter_count(cigar) % 65536) as u16
}

/// The fixed part of a record, after the block size.
#[derive(Clone, Copy, Debug, PartialEq, Eq, Structural)]
pub struct FixedFields {
    /// The index of the reference in the dictionary.
    pub reference: i32,
    /// The 0-based position.
    pub position: i32,
    /// The length of the read name with its zero byte.
    pub name_length: u8,
    pub mapping_quality: u8,
    /// The bin, which is not computed: always 0.
    pub bin: u16,
    /// The number of CIGAR operations.
    pub operations: u16,
    pub flag: u16,
    /// The number of bases.
    pub bases: u32,
    /// The index of the mate's reference in the dictionary.
    pub mate_reference: i32,
    /// The 0-based position of the mate.
    pub mate_position: i32,
    pub template_length: i32,
}

impl FixedFields {
    /// The 32 bytes of the fixed part, each field little-endian, in the
    /// order reference, position, name length, mapping quality, bin,
    /// operation count, flag, number of bases, mate reference, mate
    /// position, template length.
    pub open spec fn layout(self) -> Seq<u8> {
        le32_signed(self.reference) + le32_signed(self.position) + seq![
            self.name_length,
            self.mapping_quality,
        ] + le16(self.bin) + le16(self.operations) + le16(self.flag) + le32(self.bases)
            + le32_signed(self.mate_reference) + le32_signed(self.mate_position) + le32_signed(
            self.template_length,
        )
    }

    /// Appends the fixed part to `out`.
    pub fn write(&self, out: &mut Vec<u8>)
        ensures
            final(out)@ == old(out)@ + self.layout(),
    {
        push_i32(out, self.reference);
        push_i32(out, self.position);
        out.push(self.name_length);
        out.push(self.mapping_quality);
        push_u16(out, self.bin);
        push_u16(out, self.operations);
        push_u16(out, self.flag);
        push_u32(out, self.bases);
        push_i32(out, self.mate_reference);
        push_i32(out, self.mate_position);
        push_i32(out, self.template_length);
        proof {
            assert(out@ =~= old(out)@ + self.layout());
        }
    }
}

/// The fixed fields of the record for a line with the fields `fields`.
pub open spec fn fixed_fields(fields: Seq<Seq<char>>, dict: Seq<ReferenceEntry>) -> FixedFields
    recommends
        fields.len() >= MANDATORY_FIELDS,
{
    let own = reference_id(dict, fields[2]);
    FixedFields {
        reference: own,
        position: position_of(fields[3]),
        name_length: read_name_length(fields[0]),
        mapping_quality: mapping_quality_of(fields[4]),
        bin: 0,
        operations: operation_count(fields[5]),
        flag: flag_of(fields[1]),
        bases: low32(fields[9].len()),
        mate_reference: mate_reference_id(dict, fields[6], own),
        mate_position: position_of(fields[7]),
        template_length: template_length_of(fields[8]),
    }
}

/// The fixed part of the record for a line with the fields `fields`.
pub open spec fn fixed_part(fields: Seq<Seq<char>>, dict: Seq<ReferenceEntry>) -> Seq<u8>
    recommends
        fields.len() >= MANDATORY_FIELDS,
{
    fixed_fields(fields, dict).layout()
}

/// The variable part of a record but for its optional fields: the read
/// name and its zero byte, the packed operations, the packed bases, the
/// qualities.
pub open spec fn variable_part(fields: Seq<Seq<char>>) -> Seq<u8>
    recommends
        fields.len() >= MANDATORY_FIELDS,
{
    terminated_name(fields[0]) + cigar_bytes(fields[5]) + packed_bases(fields[9]) + quality_bytes(
        fields[10],
    )
}

/// The bytes of the optional fields `tags`, in order; a field that cannot
/// be encoded adds none.
pub open spec fn tags_bytes(tags: Seq<Seq<char>>) -> Seq<u8>
    decreases tags.len(),
{
    if tags.len() == 0 {
        Seq::empty()
    } else {
        tags_bytes(tags.drop_last()) + match tag_encoding(tags.last()) {
            Ok(bytes) => bytes,
            Err(_) => Seq::empty(),
        }
    }
}

/// The warnings for the optional fields `tags`, in order, where the first
/// of them is field `first` of its line.
pub open spec fn tags_warnings(tags: Seq<Seq<char>>, first: int) -> Seq<TagWarning>
    decreases tags.len(),
{
    if tags.len() == 0 {
        Seq::empty()
    } else {
        tags_warnings(tags.drop_last(), first) + match tag_encoding(tags.last()) {
            Ok(_) => Seq::empty(),
            Err(issue) => seq![
                TagWarning { field: (first + tags.len() - 1) as usize, issue },
            ],
        }
    }
}

/// `field` alone where `absent`, else nothing.
pub open spec fn noted<T>(absent: bool, field: T) -> Seq<T> {
    if absent {
        seq![field]
    } else {
        Seq::empty()
    }
}

/// The numeric fields of a line that denote no number of their type, and
/// for which the record therefore holds the default, in the order flag,
/// position, mapping quality, mate position, template length.
pub open spec fn defaulted_fields(fields: Seq<Seq<char>>) -> Seq<NumericField>
    recommends
        fields.len() >= MANDATORY_FIELDS,
{
    noted(parse_decimal(fields[1], false, 0, 0xffff) is None, NumericField::Flag) + noted(
        parse_decimal(fields[3], true, -0x8000_0000, 0x7fff_ffff) is None,
        NumericField::Position,
    ) + noted(parse_decimal(fields[4], false, 0, 0xff) is None, NumericField::MappingQuality)
        + noted(
        parse_decimal(fields[7], true, -0x8000_0000, 0x7fff_ffff) is None,
        NumericField::MatePosition,
    ) + noted(
        parse_decimal(fields[8], true, -0x8000_0000, 0x7fff_ffff) is None,
        NumericField::TemplateLength,
    )
}

/// The reference fields of a line that name no entry of the dictionary,
/// and for which the record therefore holds index 0: the record's own
/// reference where no entry has its name; the mate's where it is given by
/// a name, not by `*` or `=`, and no entry has that name.
pub open spec fn unresolved_fields(
    fields: Seq<Seq<char>>,
    dict: Seq<ReferenceEntry>,
) -> Seq<ReferenceField>
    recommends
        fields.len() >= MANDATORY_FIELDS,
{
    noted(!names_entry(dict, fields[2]), ReferenceField::Own) + noted(
        mate_names_none(dict, fields[6]),
        ReferenceField::Mate,
    )
}

/// What follows the block size in the record of a line with the fields
/// `fields`.
pub open spec fn record_body(fields: Seq<Seq<char>>, dict: Seq<ReferenceEntry>) -> Seq<u8>
    recommends
        fields.len() >= MANDATORY_FIELDS,
{
    fixed_part(fields, dict) + variable_part(fields) + tags_bytes(
        fields.skip(MANDATORY_FIELDS as int),
    )
}

/// The record of a line with the fields `fields`: the length of its body
/// as 32 bits hold it, then the body.
pub open spec fn record_bytes(fields: Seq<Seq<char>>, dict: Seq<ReferenceEntry>) -> Seq<u8>
    recommends
        fields.len() >= MANDATORY_FIELDS,
{
    le32(low32(record_body(fields, dict).len())) + record_body(fields, dict)
}

/// The fixed part takes 32 bytes.
pub proof fn lemma_fixed_part_len(fields: Seq<Seq<char>>, dict: Seq<ReferenceEntry>)
    ensures
        fixed_part(fields, dict).len() == FIXED_BYTES,
{
}

/// The block size of a record is the number of bytes that follow it: the
/// first four bytes of a record shorter than 2^32 + 4 bytes read as its
/// total length less 4.
pub proof fn lemma_block_size(fields: Seq<Seq<char>>, dict: Seq<ReferenceEntry>)
    requires
        record_bytes(fields, dict).len() - 4 < 0x1_0000_0000,
    ensures
        record_bytes(fields, dict).len() >= 4 + FIXED_BYTES,
        le32_value(record_bytes(fields, dict).take(4)) == record_bytes(fields, dict).len() - 4,
{
    let body = record_body(fields, dict);
    lemma_fixed_part_len(fields, dict);
    lemma_le32_roundtrip(low32(body.len()));
    assert(record_bytes(fields, dict).take(4) =~= le32(low32(body.len())));
}

/// A record and what was noted while it was made.
#[derive(Clone, Debug)]
pub struct EncodedRecord {
    /// The record, block size first.
    pub bytes: Vec<u8>,
    /// The numeric fields for which the record holds the default.
    pub defaulted: Vec<NumericField>,
    /// The reference fields that name no entry of the dictionary, and for
    /// which the record holds index 0.
    pub unresolved: Vec<ReferenceField>,
    /// The optional fields that left no bytes in the record.
    pub warnings: Vec<TagWarning>,
}

/// `position` less one, wrapping round at the least `i32`.
fn decrement(position: i32) -> (r: i32)
    ensures
        r == zero_based(position),
{
    if position == i32::MIN {
        i32::MAX
    } else {
        position - 1
    }
}

/// Notes `field` where `absent`.
fn note<T>(notes: &mut Vec<T>, absent: bool, field: T)
    ensures
        final(notes)@ == old(notes)@ + noted(absent, field),
{
    if absent {
        notes.push(field);
    }
    proof {
        assert(notes@ =~= old(notes)@ + noted(absent, field));
    }
}

/// The reference fields of a line that name no entry of the dictionary.
pub fn find_unresolved(fields: &Vec<&str>, references: &Vec<Reference>) -> (unresolved: Vec<
    ReferenceField,
>)
    requires
        fields.len() >= MANDATORY_FIELDS,
    ensures
        unresolved@ == unresolved_fields(texts(fields@), entries(references@)),
{
    let mut unresolved: Vec<ReferenceField> = Vec::new();
    note(&mut unresolved, find_reference(references, fields[2]).is_none(), ReferenceField::Own);
    note(&mut unresolved, mate_is_unresolved(references, fields[6]), ReferenceField::Mate);
    proof {
        assert(unresolved@ =~= unresolved_fields(texts(fields@), entries(references@)));
    }
    unresolved
}

/// The numeric fields of a line for which its record holds the default.
pub fn find_defaulted(fields: &Vec<&str>) -> (defaulted: Vec<NumericField>)
    requires
        fields.len() >= MANDATORY_FIELDS,
    ensures
        defaulted@ == defaulted_fields(texts(fields@)),
{
    let mut defaulted: Vec<NumericField> = Vec::new();
    note(&mut defaulted, parse_u16(fields[1]).is_none(), NumericField::Flag);
    note(&mut defaulted, parse_i32(fields[3]).is_none(), NumericField::Position);
    note(&mut defaulted, parse_u8(fields[4]).is_none(), NumericField::MappingQuality);
    note(&mut defaulted, parse_i32(fields[7]).is_none(), NumericField::MatePosition);
    note(&mut defaulted, parse_i32(fields[8]).is_none(), NumericField::TemplateLength);
    proof {
        assert(defaulted@ =~= defaulted_fields(texts(fields@)));
    }
    defaulted
}

/// Reads the fixed fields of the record for a line with the fields
/// `fields`.
pub fn read_fixed_fields(fields: &Vec<&str>, references: &Vec<Reference>) -> (fixed: FixedFields)
    requires
        fields.len() >= MANDATORY_FIELDS,
    ensures
        fixed == fixed_fields(texts(fields@), entries(references@)),
{
    let own = resolve_reference(references, fields[2]);
    let mate = resolve_mate(references, fields[6], own);
    let flag: u16 = match parse_u16(fields[1]) {
        Some(v) => v,
        None => 0,
    };
    let position: i32 = match parse_i32(fields[3]) {
        Some(v) => v,
        None => 1,
    };
    let mapping_quality: u8 = match parse_u8(fields[4]) {
        Some(v) => v,
        None => 255,
    };
    let mate_position: i32 = match parse_i32(fields[7]) {
        Some(v) => v,
        None => 1,
    };
    let template_length: i32 = match parse_i32(fields[8]) {
        Some(v) => v,
        None => 0,
    };
    let name_bytes = fields[0].as_bytes().len();
    FixedFields {
        reference: own,
        position: decrement(position),
        name_length: ((name_bytes % 256 + 1) % 256) as u8,
        mapping_quality,
        bin: 0,
        operations: (count_letters(fields[5]) % 65536) as u16,
        flag,
        bases: length_field(fields[9].unicode_len()),
        mate_reference: mate,
        mate_position: decrement(mate_position),
        template_length,
    }
}

/// Appends the encodings of the optional fields of `fields` to `out`, and
/// notes those that have none.
fn push_tags(out: &mut Vec<u8>, warnings: &mut Vec<TagWarning>, fields: &Vec<&str>)
    requires
        fields.len() >= MANDATORY_FIELDS,
        old(warnings)@.len() == 0,
    ensures
        final(out)@ == old(out)@ + tags_bytes(texts(fields@).skip(MANDATORY_FIELDS as int)),
        final(warnings)@ == tags_warnings(
            texts(fields@).skip(MANDATORY_FIELDS as int),
            MANDATORY_FIELDS as int,
        ),
{
    let ghost tags = texts(fields@).skip(MANDATORY_FIELDS as int);
    let mut i: usize = MANDATORY_FIELDS;
    proof {
        assert(out@ =~= old(out)@ + tags_bytes(tags.take(0)));
    }
    while i < fields.len()
        invariant
            MANDATORY_FIELDS <= i <= fields.len(),
            tags == texts(fields@).skip(MANDATORY_FIELDS as int),
            out@ == old(out)@ + tags_bytes(tags.take(i - MANDATORY_FIELDS)),
            warnings@ == tags_warnings(tags.take(i - MANDATORY_FIELDS), MANDATORY_FIELDS as int),
        decreases fields.len() - i,
    {
        let ghost done = tags.take(i - MANDATORY_FIELDS);
        let ghost more = tags.take(i - MANDATORY_FIELDS + 1);
        let ghost bytes_before = out@;
        let ghost warnings_before = warnings@;
        proof {
            assert(more.drop_last() =~= done);
            assert(more.last() == fields@[i as int]@);
        }
        match encode_tag(fields[i]) {
            Ok(bytes) => {
                append(out, bytes.as_slice());
                proof {
                    assert(out@ =~= old(out)@ + tags_bytes(more));
                    assert(warnings@ =~= tags_warnings(more, MANDATORY_FIELDS as int));
                }
            },
            Err(issue) => {
                warnings.push(TagWarning { field: i, issue });
                proof {
                    assert(out@ =~= old(out)@ + tags_bytes(more));
                    assert(warnings@ =~= tags_warnings(more, MANDATORY_FIELDS as int));
                }
            },
        }
        i += 1;
    }
    proof {
        assert(tags.take(fields.len() - MANDATORY_FIELDS) =~= tags);
    }
}

/// Encodes the record of an alignment line that was split into its fields.
pub fn encode_fields(fields: &Vec<&str>, references: &Vec<Reference>) -> (record: EncodedRecord)
    requires
        fields.len() >= MANDATORY_FIELDS,
    ensures
        record.bytes@ == record_bytes(texts(fields@), entries(references@)),
        record.defaulted@ == defaulted_fields(texts(fields@)),
        record.unresolved@ == unresolved_fields(texts(fields@), entries(references@)),
        record.warnings@ == tags_warnings(
            texts(fields@).skip(MANDATORY_FIELDS as int),
            MANDATORY_FIELDS as int,
        ),
        record.bytes@.len() >= 4 + FIXED_BYTES,
        record.bytes@.take(4) == le32(low32((record.bytes@.len() - 4) as nat)),
{
    let ghost all = texts(fields@);
    let ghost dict = entries(references@);
    let mut body: Vec<u8> = Vec::new();
    let mut warnings: Vec<TagWarning> = Vec::new();
    let defaulted = find_defaulted(fields);
    let unresolved = find_unresolved(fields, references);
    let fixed = read_fixed_fields(fields, references);
    fixed.write(&mut body);
    append(&mut body, fields[0].as_bytes());
    body.push(0);
    let operations = encode_cigar(fields[5]);
    append(&mut body, operations.as_slice());
    let bases = encode_seq(fields[9]);
    append(&mut body, bases.as_slice());
    let qualities = encode_qual(fields[10]);
    append(&mut body, qualities.as_slice());
    proof {
        assert(body@ =~= fixed_part(all, dict) + variable_part(all));
    }
    push_tags(&mut body, &mut warnings, fields);
    let mut bytes: Vec<u8> = Vec::new();
    push_u32(&mut bytes, length_field(body.len()));
    append(&mut bytes, body.as_slice());
    proof {
        lemma_fixed_part_len(all, dict);
        assert(bytes@ =~= record_bytes(all, dict));
        assert(bytes@.take(4) =~= le32(low32(body@.len())));
    }
    EncodedRecord { bytes, defaulted, unresolved, warnings }
}

/// Encodes the record of an alignment line; a line of fewer than 11
/// tab-separated fields has none.
pub fn encode_record(line: &str, references: &Vec<Reference>) -> (r: Option<EncodedRecord>)
    ensures
        ({
            let fields = split_on(line@, '\t');
            match r {
                None => fields.len() < MANDATORY_FIELDS,
                Some(record) => {
                    &&& fields.len() >= MANDATORY_FIELDS
                    &&& record.bytes@ == record_bytes(fields, entries(references@))
                    &&& record.defaulted@ == defaulted_fields(fields)
                    &&& record.unresolved@ == unresolved_fields(fields, entries(references@))
                    &&& record.warnings@ == tags_warnings(
                        fields.skip(MANDATORY_FIELDS as int),
                        MANDATORY_FIELDS as int,
                    )
                    &&& record.bytes@.len() >= 4 + FIXED_BYTES
                    &&& record.bytes@.take(4) == le32(low32((record.bytes@.len() - 4) as nat))
                },
            }
        }),
{
    let fields = split(line, '\t');
    if fields.len() < MANDATORY_FIELDS {
        None
    } else {
        Some(encode_fields(&fields, references))
    }
}

} // verus!
