use sam2bam::dictionary::Reference;
use sam2bam::record::encode_fields;
use sam2bam::record::encode_record;
use sam2bam::record::find_defaulted;
use sam2bam::record::find_unresolved;
use sam2bam::record::read_fixed_fields;
use sam2bam::record::FixedFields;
use sam2bam::record::NumericField;
use sam2bam::record::ReferenceField;
use sam2bam::record::TagWarning;
use sam2bam::tags::TagIssue;

fn refs() -> Vec<Reference> {
    vec![
        Reference { name: String::from("chr1"), length: 1000 },
        Reference { name: String::from("chr2"), length: 2000 },
    ]
}

fn fixed(line: &str) -> FixedFields {
    let fields: Vec<&str> = line.split('\t').collect();
    read_fixed_fields(&fields, &refs())
}

fn i32_at(bytes: &[u8], at: usize) -> i32 {
    i32::from_le_bytes([bytes[at], bytes[at + 1], bytes[at + 2], bytes[at + 3]])
}

#[test]
fn record_of_simple_line() {
    let line = "read1\t0\tchr1\t5\t60\t4M\t*\t0\t0\tACGT\tFFFF";
    let record = encode_record(line, &refs()).unwrap();
    let mut body: Vec<u8> = Vec::new();
    body.extend_from_slice(&0i32.to_le_bytes());
    body.extend_from_slice(&4i32.to_le_bytes());
    body.push(6);
    body.push(60);
    body.extend_from_slice(&0u16.to_le_bytes());
    body.extend_from_slice(&1u16.to_le_bytes());
    body.extend_from_slice(&0u16.to_le_bytes());
    body.extend_from_slice(&4u32.to_le_bytes());
    body.extend_from_slice(&(-1i32).to_le_bytes());
    body.extend_from_slice(&(-1i32).to_le_bytes());
    body.extend_from_slice(&0i32.to_le_bytes());
    body.extend_from_slice(&[0x72, 0x65, 0x61, 0x64, 0x31, 0]);
    body.extend_from_slice(&[0x40, 0, 0, 0]);
    body.extend_from_slice(&[0x12, 0x48]);
    body.extend_from_slice(&[37, 37, 37, 37]);
    let mut whole = (body.len() as u32).to_le_bytes().to_vec();
    whole.extend_from_slice(&body);
    assert_eq!(record.bytes, whole);
    assert!(record.warnings.is_empty());
    assert!(record.defaulted.is_empty());
    assert!(record.unresolved.is_empty());
}

#[test]
fn record_fixed_fields_of_simple_line() {
    let got = fixed("read1\t0\tchr1\t5\t60\t4M\t*\t0\t0\tACGT\tFFFF");
    assert_eq!(
        got,
        FixedFields {
            reference: 0,
            position: 4,
            name_length: 6,
            mapping_quality: 60,
            bin: 0,
            operations: 1,
            flag: 0,
            bases: 4,
            mate_reference: -1,
            mate_position: -1,
            template_length: 0,
        }
    );
}

#[test]
fn record_fixed_fields_of_paired_line() {
    let got = fixed("q\t99\tchr2\t100\t30\t10M2I5=\t=\t300\t-250\tACGTN\t*");
    assert_eq!(
        got,
        FixedFields {
            reference: 1,
            position: 99,
            name_length: 2,
            mapping_quality: 30,
            bin: 0,
            operations: 2,
            flag: 99,
            bases: 5,
            mate_reference: 1,
            mate_position: 299,
            template_length: -250,
        }
    );
    assert_eq!(fixed("q\t0\tchr1\t1\t0\t*\tchr2\t1\t0\t*\t*").mate_reference, 1);
}

#[test]
fn record_needs_eleven_fields() {
    assert!(encode_record("read1\t0\tchr1\t5\t60\t4M\t*\t0\t0\tACGT", &refs()).is_none());
    assert!(encode_record("", &refs()).is_none());
    assert!(encode_record("read1", &refs()).is_none());
    assert!(encode_record("\t\t\t\t\t\t\t\t\t\t", &refs()).is_some());
}

#[test]
fn record_block_size_is_length_less_four() {
    let lines = [
        "read1\t0\tchr1\t5\t60\t4M\t*\t0\t0\tACGT\tFFFF",
        "r\t0\t*\t0\t0\t*\t*\t0\t0\t*\t*",
        "r2\t16\tchr2\t7\t1\t3M1D2M\t=\t9\t12\tACGTA\tIIIII\tNM:i:1\tRG:Z:g\tXT:A:U",
        "\t\t\t\t\t\t\t\t\t\t",
        "r\t0\tchr1\t1\t0\t*\t*\t0\t0\t*\t*\tbad\tXF:f:1\tNM:i:x",
    ];
    for line in lines {
        let bytes = encode_record(line, &refs()).unwrap().bytes;
        assert!(bytes.len() >= 36);
        let size = u32::from_le_bytes([bytes[0], bytes[1], bytes[2], bytes[3]]);
        assert_eq!(size as usize, bytes.len() - 4);
    }
}

#[test]
fn record_defaults_for_fields_that_are_no_numbers() {
    let line = "r\tx\tchr1\tx\tx\t*\t*\tx\tx\t*\t*";
    let record = encode_record(line, &refs()).unwrap();
    assert_eq!(
        record.defaulted,
        vec![
            NumericField::Flag,
            NumericField::Position,
            NumericField::MappingQuality,
            NumericField::MatePosition,
            NumericField::TemplateLength,
        ]
    );
    let got = fixed(line);
    assert_eq!(got.flag, 0);
    assert_eq!(got.position, 0);
    assert_eq!(got.mapping_quality, 255);
    assert_eq!(got.mate_position, 0);
    assert_eq!(got.template_length, 0);
}

#[test]
fn record_defaults_are_told_from_values() {
    let fields: Vec<&str> = "r\t0\tchr1\t1\t255\t*\t*\t1\t0\t*\t*".split('\t').collect();
    assert!(find_defaulted(&fields).is_empty());
    let fields: Vec<&str> = "r\t65536\tchr1\t1\t256\t*\t*\t1\t\t*\t*".split('\t').collect();
    assert_eq!(
        find_defaulted(&fields),
        vec![NumericField::Flag, NumericField::MappingQuality, NumericField::TemplateLength]
    );
}

#[test]
fn record_position_is_made_zero_based() {
    assert_eq!(fixed("r\t0\tchr1\t1\t0\t*\t*\t1\t0\t*\t*").position, 0);
    assert_eq!(fixed("r\t0\tchr1\t0\t0\t*\t*\t0\t0\t*\t*").position, -1);
    assert_eq!(fixed("r\t0\tchr1\t2147483647\t0\t*\t*\t-5\t0\t*\t*").position, 2147483646);
    assert_eq!(fixed("r\t0\tchr1\t1\t0\t*\t*\t-5\t0\t*\t*").mate_position, -6);
    assert_eq!(fixed("r\t0\tchr1\t-2147483648\t0\t*\t*\t1\t0\t*\t*").position, i32::MAX);
}

#[test]
fn record_unresolved_reference_is_index_zero() {
    assert_eq!(fixed("r\t0\t*\t1\t0\t*\t*\t1\t0\t*\t*").reference, 0);
    assert_eq!(fixed("r\t0\tchr9\t1\t0\t*\t*\t1\t0\t*\t*").reference, 0);
    assert_eq!(fixed("r\t0\t*\t1\t0\t*\t=\t1\t0\t*\t*").mate_reference, 0);
    assert_eq!(fixed("r\t0\t*\t1\t0\t*\t*\t1\t0\t*\t*").mate_reference, -1);
    assert_eq!(fixed("r\t0\tchr2\t1\t0\t*\tchr9\t1\t0\t*\t*").mate_reference, 0);
}

#[test]
fn record_name_length_is_held_in_eight_bits() {
    let name = "n".repeat(254);
    let line = format!("{}\t0\t*\t1\t0\t*\t*\t1\t0\t*\t*", name);
    assert_eq!(fixed(&line).name_length, 255);
    let name = "n".repeat(255);
    let line = format!("{}\t0\t*\t1\t0\t*\t*\t1\t0\t*\t*", name);
    assert_eq!(fixed(&line).name_length, 0);
    let record = encode_record(&line, &refs()).unwrap();
    assert_eq!(&record.bytes[36..36 + 255], name.as_bytes());
    assert_eq!(record.bytes[36 + 255], 0);
    assert_eq!(fixed("\u{e9}\t0\t*\t1\t0\t*\t*\t1\t0\t*\t*").name_length, 3);
}

#[test]
fn record_operation_count_counts_letters() {
    assert_eq!(fixed("r\t0\t*\t1\t0\t3M2=1X\t*\t1\t0\t*\t*").operations, 2);
    assert_eq!(fixed("r\t0\t*\t1\t0\t*\t*\t1\t0\t*\t*").operations, 0);
}

#[test]
fn record_base_count_counts_characters() {
    assert_eq!(fixed("r\t0\t*\t1\t0\t*\t*\t1\t0\tACGTA\t*").bases, 5);
    assert_eq!(fixed("r\t0\t*\t1\t0\t*\t*\t1\t0\t\t*").bases, 0);
    assert_eq!(fixed("r\t0\t*\t1\t0\t*\t*\t1\t0\tA\u{e9}\t*").bases, 2);
}

#[test]
fn record_quality_placeholder_is_one_byte_whatever_the_bases() {
    let record = encode_record("r\t0\t*\t1\t0\t*\t*\t1\t0\tACGT\t*", &refs()).unwrap();
    let tail = &record.bytes[36 + 2..];
    assert_eq!(tail, &[0x0f, 0, 0, 0, 0x12, 0x48, 0xff]);
}

#[test]
fn record_tags_follow_in_order() {
    let line = "r\t0\t*\t1\t0\t*\t*\t1\t0\t*\t*\tNM:i:5\tXT:A:U\tRG:Z:g1";
    let record = encode_record(line, &refs()).unwrap();
    let tags = &record.bytes[36 + 2 + 4 + 1 + 1..];
    assert_eq!(
        tags,
        &[0x4e, 0x4d, 0x69, 5, 0, 0, 0, 0x58, 0x54, 0x41, 0x55, 0x52, 0x47, 0x5a, 0x67, 0x31, 0]
    );
    assert!(record.warnings.is_empty());
}

#[test]
fn record_integer_tag_reads_back() {
    let line = "r\t0\t*\t1\t0\t*\t*\t1\t0\t*\t*\tNM:i:5";
    let bytes = encode_record(line, &refs()).unwrap().bytes;
    assert_eq!(i32_at(&bytes, bytes.len() - 4), 5);
}

#[test]
fn record_skips_tags_it_cannot_encode() {
    let plain = encode_record("r\t0\t*\t1\t0\t*\t*\t1\t0\t*\t*", &refs()).unwrap();
    let line = "r\t0\t*\t1\t0\t*\t*\t1\t0\t*\t*\tNM:i:abc";
    let record = encode_record(line, &refs()).unwrap();
    assert_eq!(record.bytes, plain.bytes);
    assert_eq!(record.warnings, vec![TagWarning { field: 11, issue: TagIssue::BadInteger }]);
}

#[test]
fn record_warnings_name_their_fields() {
    let line = "r\t0\t*\t1\t0\t*\t*\t1\t0\t*\t*\tbad\tNM:i:1\tXF:f:1\tXQ:q:1\tXA:A:\tNM:i:x";
    let fields: Vec<&str> = line.split('\t').collect();
    let record = encode_fields(&fields, &refs());
    assert_eq!(
        record.warnings,
        vec![
            TagWarning { field: 11, issue: TagIssue::Malformed },
            TagWarning { field: 13, issue: TagIssue::UnsupportedType },
            TagWarning { field: 14, issue: TagIssue::UnknownType },
            TagWarning { field: 15, issue: TagIssue::EmptyCharacter },
            TagWarning { field: 16, issue: TagIssue::BadInteger },
        ]
    );
    let tags = &record.bytes[36 + 2 + 4 + 1 + 1..];
    assert_eq!(tags, &[0x4e, 0x4d, 0x69, 1, 0, 0, 0]);
}

#[test]
fn record_fixed_part_writes_32_bytes() {
    let got = fixed("read1\t3\tchr2\t5\t60\t4M\t*\t0\t-7\tACGT\tFFFF");
    let mut out = Vec::new();
    got.write(&mut out);
    assert_eq!(out.len(), 32);
    assert_eq!(i32_at(&out, 0), 1);
    assert_eq!(i32_at(&out, 4), 4);
    assert_eq!(out[8], 6);
    assert_eq!(out[9], 60);
    assert_eq!(&out[10..12], &[0, 0]);
    assert_eq!(&out[12..14], &[1, 0]);
    assert_eq!(&out[14..16], &[3, 0]);
    assert_eq!(&out[16..20], &[4, 0, 0, 0]);
    assert_eq!(i32_at(&out, 20), -1);
    assert_eq!(i32_at(&out, 24), -1);
    assert_eq!(i32_at(&out, 28), -7);
}

#[test]
fn record_flags_references_that_name_no_entry() {
    let unresolved = |line: &str| encode_record(line, &refs()).unwrap().unresolved;
    assert_eq!(unresolved("r\t0\tchr1\t1\t0\t*\t*\t1\t0\t*\t*"), vec![]);
    assert_eq!(unresolved("r\t0\tchr1\t1\t0\t*\t=\t1\t0\t*\t*"), vec![]);
    assert_eq!(unresolved("r\t0\tchr1\t1\t0\t*\tchr2\t1\t0\t*\t*"), vec![]);
    assert_eq!(unresolved("r\t0\t*\t1\t0\t*\t*\t1\t0\t*\t*"), vec![ReferenceField::Own]);
    assert_eq!(unresolved("r\t0\tchr9\t1\t0\t*\t=\t1\t0\t*\t*"), vec![ReferenceField::Own]);
    assert_eq!(
        unresolved("r\t0\tchr2\t1\t0\t*\tchr9\t1\t0\t*\t*"),
        vec![ReferenceField::Mate]
    );
    assert_eq!(
        unresolved("r\t0\t*\t1\t0\t*\tchr9\t1\t0\t*\t*"),
        vec![ReferenceField::Own, ReferenceField::Mate]
    );
}

#[test]
fn record_flags_every_reference_against_no_dictionary() {
    let fields: Vec<&str> = "r\t0\tchr1\t1\t0\t*\tchr1\t1\t0\t*\t*".split('\t').collect();
    assert_eq!(
        find_unresolved(&fields, &Vec::new()),
        vec![ReferenceField::Own, ReferenceField::Mate]
    );
    let fields: Vec<&str> = "r\t0\tchr1\t1\t0\t*\t*\t1\t0\t*\t*".split('\t').collect();
    assert_eq!(find_unresolved(&fields, &Vec::new()), vec![ReferenceField::Own]);
}

#[test]
fn record_flagged_reference_still_holds_index_zero() {
    let record = encode_record("r\t0\tchr9\t1\t0\t*\tchr8\t1\t0\t*\t*", &refs()).unwrap();
    assert_eq!(i32_at(&record.bytes, 4), 0);
    assert_eq!(i32_at(&record.bytes, 24), 0);
    assert_eq!(record.unresolved, vec![ReferenceField::Own, ReferenceField::Mate]);
}
