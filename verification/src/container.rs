//! The container: magic, preamble and records, compressed as one gzip
//! member, closed by the end-of-stream marker.

use crate::dictionary::declared_references;
use crate::dictionary::entries;
use crate::dictionary::header_text;
use crate::dictionary::is_header;
use crate::dictionary::is_header_line;
use crate::dictionary::line_texts;
use crate::dictionary::scan_header;
use crate::dictionary::Reference;
use crate::dictionary::ReferenceEntry;
use crate::endian::append;
use crate::endian::le32;
use crate::endian::length_field;
use crate::endian::low32;
use crate::endian::push_u32;
use crate::gzip::accepts;
use crate::gzip::finish;
use crate::gzip::finishes;
use crate::gzip::gzip_member;
use crate::gzip::start;
use crate::gzip::take;
use crate::gzip::taken;
use crate::header::header_block;
use crate::header::name_length;
use crate::header::name_length_field;
use crate::header::reference_block;
use crate::header::reference_blocks;
use crate::header::terminated_name;
use crate::record::defaulted_fields;
use crate::record::encode_record;
use crate::record::record_bytes;
use crate::record::tags_warnings;
use crate::record::unresolved_fields;
use crate::record::ReferenceField;
use crate::record::NumericField;
use crate::record::TagWarning;
use crate::record::MANDATORY_FIELDS;
use crate::text::split_on;
use vstd::prelude::*;
use vstd::utf8::encode_utf8;

verus! {

/// The four bytes that open the stream: `BAM` and 1.
pub open spec fn magic() -> Seq<u8> {
    seq![0x42u8, 0x41u8, 0x4du8, 0x01u8]
}

/// The 28 bytes that close the container: an empty compressed block.
pub open spec fn end_marker() -> Seq<u8> {
    seq![
        31u8, 139u8, 8u8, 4u8, 0u8, 0u8, 0u8, 0u8, 0u8, 255u8, 6u8, 0u8, 66u8, 67u8, 2u8, 0u8,
        27u8, 0u8, 3u8, 0u8, 0u8, 0u8, 0u8, 0u8, 0u8, 0u8, 0u8, 0u8,
    ]
}

/// Whether a line of the input gives a record: it is no header line and
/// holds at least 11 tab-separated fields.
pub open spec fn gives_record(line: Seq<char>) -> bool {
    !is_header(line) && split_on(line, '\t').len() >= MANDATORY_FIELDS
}

/// The chunks of one dictionary entry: the length of the terminated name,
/// the terminated name, the length of the reference.
pub open spec fn reference_chunks(entry: ReferenceEntry) -> Seq<Seq<u8>> {
    seq![
        le32(name_length_field(encode_utf8(entry.name).len())),
        terminated_name(entry.name),
        le32(entry.length),
    ]
}

/// The chunks of the dictionary, entry by entry.
pub open spec fn dictionary_chunks(dict: Seq<ReferenceEntry>) -> Seq<Seq<u8>>
    decreases dict.len(),
{
    if dict.len() == 0 {
        Seq::empty()
    } else {
        dictionary_chunks(dict.drop_last()) + reference_chunks(dict.last())
    }
}

/// The records of the lines that give one, in the order of the lines.
pub open spec fn record_chunks(lines: Seq<Seq<char>>, dict: Seq<ReferenceEntry>) -> Seq<Seq<u8>>
    decreases lines.len(),
{
    if lines.len() == 0 {
        Seq::empty()
    } else if gives_record(lines.last()) {
        record_chunks(lines.drop_last(), dict).push(
            record_bytes(split_on(lines.last(), '\t'), dict),
        )
    } else {
        record_chunks(lines.drop_last(), dict)
    }
}

/// The chunks that the compressor takes in for an input, in order: the
/// magic; the length of the header text; the header text; the number of
/// references; three chunks for each reference; one chunk for each record.
pub open spec fn container_chunks(lines: Seq<Seq<char>>) -> Seq<Seq<u8>> {
    let text = header_text(lines);
    let dict = declared_references(lines);
    seq![magic(), le32(low32(text.len())), text, le32(low32(dict.len()))] + dictionary_chunks(dict)
        + record_chunks(lines, dict)
}

/// The bytes of `chunks` one after the other.
pub open spec fn joined(chunks: Seq<Seq<u8>>) -> Seq<u8>
    decreases chunks.len(),
{
    if chunks.len() == 0 {
        Seq::empty()
    } else {
        joined(chunks.drop_last()) + chunks.last()
    }
}

/// The uncompressed stream for an input: the magic, the preamble, and the
/// records of the lines that give one, in the order of the lines.
pub open spec fn container_stream(lines: Seq<Seq<char>>) -> Seq<u8> {
    let dict = declared_references(lines);
    magic() + header_block(header_text(lines), dict) + joined(record_chunks(lines, dict))
}

/// Records keep the order of their lines: the records of two inputs one
/// after the other are those of the first, then those of the second.
pub proof fn lemma_records_in_line_order(
    first: Seq<Seq<char>>,
    second: Seq<Seq<char>>,
    dict: Seq<ReferenceEntry>,
)
    ensures
        record_chunks(first + second, dict) == record_chunks(first, dict) + record_chunks(
            second,
            dict,
        ),
    decreases second.len(),
{
    if second.len() == 0 {
        assert(first + second =~= first);
        assert(record_chunks(first, dict) + record_chunks(second, dict) =~= record_chunks(
            first,
            dict,
        ));
    } else {
        lemma_records_in_line_order(first, second.drop_last(), dict);
        assert((first + second).drop_last() =~= first + second.drop_last());
        assert((first + second).last() == second.last());
        if gives_record(second.last()) {
            let r = record_bytes(split_on(second.last(), '\t'), dict);
            assert((record_chunks(first, dict) + record_chunks(second.drop_last(), dict)).push(r)
                =~= record_chunks(first, dict) + record_chunks(second.drop_last(), dict).push(r));
        }
    }
}

/// Joining two runs of chunks joins their bytes.
pub proof fn lemma_joined_concat(a: Seq<Seq<u8>>, b: Seq<Seq<u8>>)
    ensures
        joined(a + b) == joined(a) + joined(b),
    decreases b.len(),
{
    if b.len() == 0 {
        assert(a + b =~= a);
        assert(joined(a) + joined(b) =~= joined(a));
    } else {
        lemma_joined_concat(a, b.drop_last());
        assert((a + b).drop_last() =~= a + b.drop_last());
        assert(joined(a + b) =~= joined(a) + joined(b));
    }
}

/// Joining one more chunk adds its bytes.
pub proof fn lemma_joined_push(chunks: Seq<Seq<u8>>, chunk: Seq<u8>)
    ensures
        joined(chunks.push(chunk)) == joined(chunks) + chunk,
{
    assert(chunks.push(chunk).drop_last() =~= chunks);
}

/// The chunks of the dictionary hold the bytes of its entries.
pub proof fn lemma_dictionary_joined(dict: Seq<ReferenceEntry>)
    ensures
        joined(dictionary_chunks(dict)) == reference_blocks(dict),
    decreases dict.len(),
{
    if dict.len() > 0 {
        lemma_dictionary_joined(dict.drop_last());
        lemma_joined_concat(dictionary_chunks(dict.drop_last()), reference_chunks(dict.last()));
        let r = reference_chunks(dict.last());
        let none = Seq::<Seq<u8>>::empty();
        lemma_joined_push(none, r[0]);
        lemma_joined_push(none.push(r[0]), r[1]);
        lemma_joined_push(none.push(r[0]).push(r[1]), r[2]);
        assert(r =~= none.push(r[0]).push(r[1]).push(r[2]));
        assert(joined(r) =~= reference_block(dict.last()));
    }
}

/// The chunks that the compressor takes in hold, one after the other, the
/// uncompressed stream.
pub proof fn lemma_chunks_hold_stream(lines: Seq<Seq<char>>)
    ensures
        joined(container_chunks(lines)) == container_stream(lines),
{
    let text = header_text(lines);
    let dict = declared_references(lines);
    let head = seq![magic(), le32(low32(text.len())), text, le32(low32(dict.len()))];
    lemma_joined_concat(head + dictionary_chunks(dict), record_chunks(lines, dict));
    lemma_joined_concat(head, dictionary_chunks(dict));
    lemma_dictionary_joined(dict);
    let none = Seq::<Seq<u8>>::empty();
    lemma_joined_push(none, head[0]);
    lemma_joined_push(none.push(head[0]), head[1]);
    lemma_joined_push(none.push(head[0]).push(head[1]), head[2]);
    lemma_joined_push(none.push(head[0]).push(head[1]).push(head[2]), head[3]);
    assert(head =~= none.push(head[0]).push(head[1]).push(head[2]).push(head[3]));
    assert(joined(head) =~= head[0] + head[1] + head[2] + head[3]);
    assert(joined(container_chunks(lines)) =~= container_stream(lines));
}

/// What was noted of the record of one line.
#[derive(Clone, Debug)]
pub struct RecordNotes {
    /// The index of the line in the input, counted from 0.
    pub line: usize,
    /// The numeric fields for which the record holds the default.
    pub defaulted: Vec<NumericField>,
    /// The reference fields that name no entry of the dictionary, and for
    /// which the record holds index 0.
    pub unresolved: Vec<ReferenceField>,
    /// The optional fields that left no bytes in the record.
    pub warnings: Vec<TagWarning>,
}

/// What a `RecordNotes` holds.
pub struct NotesEntry {
    pub line: usize,
    pub defaulted: Seq<NumericField>,
    pub unresolved: Seq<ReferenceField>,
    pub warnings: Seq<TagWarning>,
}

impl View for RecordNotes {
    type V = NotesEntry;

    open spec fn view(&self) -> NotesEntry {
        NotesEntry {
            line: self.line,
            defaulted: self.defaulted@,
            unresolved: self.unresolved@,
            warnings: self.warnings@,
        }
    }
}

/// What a list of notes holds, entry by entry.
pub open spec fn notes_entries(notes: Seq<RecordNotes>) -> Seq<NotesEntry> {
    Seq::new(notes.len(), |i: int| notes[i]@)
}

/// The notes for the record of line `index`, whose text is `line`.
pub open spec fn notes_of_line(
    index: int,
    line: Seq<char>,
    dict: Seq<ReferenceEntry>,
) -> NotesEntry {
    let fields = split_on(line, '\t');
    NotesEntry {
        line: index as usize,
        defaulted: defaulted_fields(fields),
        unresolved: unresolved_fields(fields, dict),
        warnings: tags_warnings(fields.skip(MANDATORY_FIELDS as int), MANDATORY_FIELDS as int),
    }
}

/// The notes for the lines `lines` against the dictionary `dict`: one
/// entry for each line that gives a record, in the order of the lines.
pub open spec fn record_notes(lines: Seq<Seq<char>>, dict: Seq<ReferenceEntry>) -> Seq<NotesEntry>
    decreases lines.len(),
{
    if lines.len() == 0 {
        Seq::empty()
    } else if gives_record(lines.last()) {
        record_notes(lines.drop_last(), dict).push(
            notes_of_line(lines.len() - 1, lines.last(), dict),
        )
    } else {
        record_notes(lines.drop_last(), dict)
    }
}

/// The notes for an input: those of its lines against the dictionary that
/// the input declares.
pub open spec fn container_notes(lines: Seq<Seq<char>>) -> Seq<NotesEntry> {
    record_notes(lines, declared_references(lines))
}

/// The bytes of a list of chunks, chunk by chunk.
pub open spec fn chunk_bytes(chunks: Seq<Vec<u8>>) -> Seq<Seq<u8>> {
    Seq::new(chunks.len(), |i: int| chunks[i]@)
}

/// What is to be compressed for an input, and what was noted on the way.
pub struct ContainerPlan {
    /// The chunks for the compressor, in order.
    pub chunks: Vec<Vec<u8>>,
    /// The notes, one entry for each record.
    pub notes: Vec<RecordNotes>,
}

/// The four bytes of `x`, low byte first.
fn word(x: u32) -> (out: Vec<u8>)
    ensures
        out@ == le32(x),
{
    let mut out: Vec<u8> = Vec::new();
    push_u32(&mut out, x);
    proof {
        assert(out@ =~= le32(x));
    }
    out
}

/// A copy of `src`.
fn copy_of(src: &[u8]) -> (out: Vec<u8>)
    ensures
        out@ == src@,
{
    let mut out: Vec<u8> = Vec::new();
    append(&mut out, src);
    proof {
        assert(out@ =~= src@);
    }
    out
}

/// The magic.
pub fn magic_bytes() -> (out: Vec<u8>)
    ensures
        out@ == magic(),
{
    let mut out: Vec<u8> = Vec::new();
    out.push(0x42);
    out.push(0x41);
    out.push(0x4d);
    out.push(0x01);
    proof {
        assert(out@ =~= magic());
    }
    out
}

/// Appends the three chunks of `reference` to `chunks`.
fn push_reference_chunks(chunks: &mut Vec<Vec<u8>>, reference: &Reference)
    ensures
        chunk_bytes(final(chunks)@) == chunk_bytes(old(chunks)@) + reference_chunks(reference@),
{
    let name = reference.name.as_str().as_bytes();
    let mut terminated = copy_of(name);
    terminated.push(0);
    chunks.push(word(name_length(name)));
    chunks.push(terminated);
    chunks.push(word(reference.length));
    proof {
        assert(chunks@[chunks@.len() - 2]@ =~= terminated_name(reference@.name));
        assert(chunk_bytes(chunks@) =~= chunk_bytes(old(chunks)@) + reference_chunks(
            reference@,
        ));
    }
}

/// Appends the chunks that open the container for a header to `chunks`.
fn push_opening_chunks(chunks: &mut Vec<Vec<u8>>, text: &Vec<u8>, references: &Vec<Reference>)
    requires
        old(chunks)@.len() == 0,
    ensures
        chunk_bytes(final(chunks)@) == seq![
            magic(),
            le32(low32(text@.len())),
            text@,
            le32(low32(references@.len())),
        ] + dictionary_chunks(entries(references@)),
{
    let ghost dict = entries(references@);
    chunks.push(magic_bytes());
    chunks.push(word(length_field(text.len())));
    chunks.push(copy_of(text.as_slice()));
    chunks.push(word(length_field(references.len())));
    let ghost head = chunk_bytes(chunks@);
    proof {
        assert(head =~= seq![
            magic(),
            le32(low32(text@.len())),
            text@,
            le32(low32(references@.len())),
        ]);
        assert(head + dictionary_chunks(dict.take(0)) =~= head);
    }
    let mut i: usize = 0;
    while i < references.len()
        invariant
            i <= references.len(),
            dict == entries(references@),
            chunk_bytes(chunks@) == head + dictionary_chunks(dict.take(i as int)),
        decreases references.len() - i,
    {
        proof {
            assert(dict.take(i + 1).drop_last() =~= dict.take(i as int));
            assert(dict.take(i + 1).last() == references@[i as int]@);
        }
        push_reference_chunks(chunks, &references[i]);
        proof {
            assert(chunk_bytes(chunks@) =~= head + dictionary_chunks(dict.take(i + 1)));
        }
        i += 1;
    }
    proof {
        assert(dict.take(references.len() as int) =~= dict);
    }
}

/// Lays out what is to be compressed for an input: the chunks in the
/// order in which the compressor is to take them, and the notes.
pub fn plan_container(lines: &Vec<String>) -> (plan: ContainerPlan)
    ensures
        chunk_bytes(plan.chunks@) == container_chunks(line_texts(lines@)),
        notes_entries(plan.notes@) == container_notes(line_texts(lines@)),
{
    let ghost all = line_texts(lines@);
    let header = scan_header(lines);
    let ghost dict = entries(header.references@);
    let mut chunks: Vec<Vec<u8>> = Vec::new();
    let mut notes: Vec<RecordNotes> = Vec::new();
    push_opening_chunks(&mut chunks, &header.text, &header.references);
    let ghost opening = chunk_bytes(chunks@);
    proof {
        assert(dict.len() == header.references@.len());
        assert(opening + record_chunks(all.take(0), dict) =~= opening);
    }
    let mut i: usize = 0;
    while i < lines.len()
        invariant
            i <= lines.len(),
            all == line_texts(lines@),
            dict == entries(header.references@),
            chunk_bytes(chunks@) == opening + record_chunks(all.take(i as int), dict),
            notes_entries(notes@) == record_notes(all.take(i as int), dict),
        decreases lines.len() - i,
    {
        let line = lines[i].as_str();
        let ghost chunks_before = chunk_bytes(chunks@);
        let ghost notes_before = notes_entries(notes@);
        proof {
            assert(all.take(i + 1).drop_last() =~= all.take(i as int));
            assert(all.take(i + 1).last() == line@);
        }
        if !is_header_line(line) {
            match encode_record(line, &header.references) {
                Some(record) => {
                    let entry = RecordNotes {
                        line: i,
                        defaulted: record.defaulted,
                        unresolved: record.unresolved,
                        warnings: record.warnings,
                    };
                    chunks.push(record.bytes);
                    notes.push(entry);
                    proof {
                        assert(chunk_bytes(chunks@) =~= chunks_before.push(
                            record_bytes(split_on(line@, '\t'), dict),
                        ));
                        assert(notes_entries(notes@) =~= notes_before.push(
                            notes_of_line(i as int, line@, dict),
                        ));
                        assert(chunk_bytes(chunks@) =~= opening + record_chunks(
                            all.take(i + 1),
                            dict,
                        ));
                    }
                },
                None => {},
            }
        }
        i += 1;
    }
    proof {
        assert(all.take(lines.len() as int) =~= all);
    }
    ContainerPlan { chunks, notes }
}

/// Why no container was made.
#[derive(Debug)]
pub enum ConvertError {
    /// The compressor failed.
    Compression(std::io::Error),
}

/// Whether the compressor makes a gzip member of `chunks`: it takes in
/// each chunk after those before it, and can then be finished.
pub open spec fn compresses(chunks: Seq<Seq<u8>>) -> bool {
    &&& forall|i: int| 0 <= i < chunks.len() ==> accepts(chunks.take(i), #[trigger] chunks[i])
    &&& finishes(chunks)
}

/// Compresses `chunks` into one gzip member, handing them to the encoder
/// one by one. It succeeds exactly where the encoder takes every chunk
/// and can be finished, and the result is then the gzip member of exactly
/// these chunks.
pub fn compress(chunks: &Vec<Vec<u8>>) -> (r: Result<Vec<u8>, ConvertError>)
    ensures
        r is Ok == compresses(chunk_bytes(chunks@)),
        r matches Ok(member) ==> member@ == gzip_member(chunk_bytes(chunks@)),
{
    let mut encoder = start();
    let ghost all = chunk_bytes(chunks@);
    let mut i: usize = 0;
    while i < chunks.len()
        invariant
            i <= chunks.len(),
            all == chunk_bytes(chunks@),
            taken(encoder) == all.take(i as int),
            forall|j: int| 0 <= j < i ==> accepts(all.take(j), #[trigger] all[j]),
        decreases chunks.len() - i,
    {
        match take(&mut encoder, chunks[i].as_slice()) {
            Ok(_) => {
                proof {
                    assert(all.take(i + 1) =~= all.take(i as int).push(chunks@[i as int]@));
                }
            },
            Err(e) => {
                proof {
                    assert(!accepts(all.take(i as int), all[i as int]));
                }
                return Err(ConvertError::Compression(e));
            },
        }
        i += 1;
    }
    proof {
        assert(all.take(chunks.len() as int) =~= all);
    }
    match finish(encoder) {
        Ok(member) => Ok(member),
        Err(e) => Err(ConvertError::Compression(e)),
    }
}

/// Closes a compressed stream with the end-of-stream marker.
pub fn seal(compressed: Vec<u8>) -> (out: Vec<u8>)
    ensures
        out@ == compressed@ + end_marker(),
{
    let marker: [u8; 28] = [
        31, 139, 8, 4, 0, 0, 0, 0, 0, 255, 6, 0, 66, 67, 2, 0, 27, 0, 3, 0, 0, 0, 0, 0, 0, 0, 0, 0,
    ];
    let mut out = compressed;
    append(&mut out, marker.as_slice());
    proof {
        assert(marker@ =~= end_marker());
    }
    out
}

/// A container and what was noted while it was made.
pub struct Conversion {
    /// The container: the compressed stream and the end-of-stream marker.
    pub bytes: Vec<u8>,
    /// The notes, one entry for each record.
    pub notes: Vec<RecordNotes>,
}

/// A conversion that gave no container, and what was noted before it
/// failed.
#[derive(Debug)]
pub struct Failure {
    /// Why no container was made.
    pub cause: ConvertError,
    /// The notes, one entry for each record.
    pub notes: Vec<RecordNotes>,
}

/// Converts the lines of a text input into a container. It succeeds
/// exactly where the compressor makes a gzip member of the input's chunks;
/// the container is then that member and the end-of-stream marker. The
/// notes are those of the input either way.
pub fn convert(lines: &Vec<String>) -> (r: Result<Conversion, Failure>)
    ensures
        r is Ok == compresses(container_chunks(line_texts(lines@))),
        match r {
            Ok(conversion) => {
                &&& conversion.bytes@ == gzip_member(container_chunks(line_texts(lines@)))
                    + end_marker()
                &&& notes_entries(conversion.notes@) == container_notes(line_texts(lines@))
            },
            Err(failure) => notes_entries(failure.notes@) == container_notes(line_texts(lines@)),
        },
{
    let plan = plan_container(lines);
    match compress(&plan.chunks) {
        Ok(member) => Ok(Conversion { bytes: seal(member), notes: plan.notes }),
        Err(cause) => Err(Failure { cause, notes: plan.notes }),
    }
}

} // verus!
