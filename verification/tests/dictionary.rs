use sam2bam::dictionary::find_reference;
use sam2bam::dictionary::is_header_line;
use sam2bam::dictionary::mate_is_unresolved;
use sam2bam::dictionary::parse_reference;
use sam2bam::dictionary::resolve_mate;
use sam2bam::dictionary::resolve_reference;
use sam2bam::dictionary::scan_header;
use sam2bam::dictionary::Reference;

fn declared(line: &str) -> Option<(String, u32)> {
    parse_reference(line).map(|r| (r.name, r.length))
}

fn some(name: &str, length: u32) -> Option<(String, u32)> {
    Some((String::from(name), length))
}

fn dictionary(names: &[&str]) -> Vec<Reference> {
    names.iter().map(|n| Reference { name: String::from(*n), length: 10 }).collect()
}

#[test]
fn header_lines_begin_with_at() {
    assert!(is_header_line("@HD\tVN:1.6"));
    assert!(is_header_line("@"));
    assert!(!is_header_line(""));
    assert!(!is_header_line("read1\t0"));
    assert!(!is_header_line(" @HD"));
}

#[test]
fn reference_needs_name_and_length() {
    assert_eq!(declared("@SQ\tSN:chr1\tLN:1000"), some("chr1", 1000));
    assert_eq!(declared("@SQ\tLN:1000\tSN:chr1"), some("chr1", 1000));
    assert_eq!(declared("@SQ\tSN:chr1"), None);
    assert_eq!(declared("@SQ\tLN:1000"), None);
    assert_eq!(declared("@SQ"), None);
    assert_eq!(declared("@HD\tSN:chr1\tLN:1000"), None);
    assert_eq!(declared("SN:chr1\tLN:1000"), None);
}

#[test]
fn reference_length_is_an_unsigned_32_bit_number() {
    assert_eq!(declared("@SQ\tSN:c\tLN:0"), some("c", 0));
    assert_eq!(declared("@SQ\tSN:c\tLN:4294967295"), some("c", 4294967295));
    assert_eq!(declared("@SQ\tSN:c\tLN:4294967296"), None);
    assert_eq!(declared("@SQ\tSN:c\tLN:-1"), None);
    assert_eq!(declared("@SQ\tSN:c\tLN:abc"), None);
    assert_eq!(declared("@SQ\tSN:c\tLN:"), None);
}

#[test]
fn reference_last_field_of_a_kind_counts() {
    assert_eq!(declared("@SQ\tSN:a\tSN:b\tLN:5"), some("b", 5));
    assert_eq!(declared("@SQ\tSN:a\tLN:5\tLN:7"), some("a", 7));
    assert_eq!(declared("@SQ\tSN:a\tLN:5\tLN:x"), None);
    assert_eq!(declared("@SQ\tSN:\tLN:5"), some("", 5));
    assert_eq!(declared("@SQ\tSN:a\tM5:abc\tLN:5\tUR:x"), some("a", 5));
}

#[test]
fn reference_line_begins_with_the_tag() {
    assert_eq!(declared("@SQX\tSN:a\tLN:5"), some("a", 5));
    assert_eq!(declared("@SQSN:a\tLN:5"), None);
}

#[test]
fn header_scan_keeps_line_order() {
    let lines = vec![
        String::from("@HD\tVN:1.6"),
        String::from("@SQ\tSN:chr2\tLN:20"),
        String::from("r\t0\tchr1"),
        String::from("@SQ\tSN:chr1\tLN:10"),
        String::from("@SQ\tSN:bad"),
        String::from("@CO\tcomment"),
        String::from(""),
    ];
    let header = scan_header(&lines);
    let expected =
        "@HD\tVN:1.6\n@SQ\tSN:chr2\tLN:20\n@SQ\tSN:chr1\tLN:10\n@SQ\tSN:bad\n@CO\tcomment\n";
    assert_eq!(header.text, expected.as_bytes().to_vec());
    let got: Vec<(String, u32)> =
        header.references.iter().map(|r| (r.name.clone(), r.length)).collect();
    assert_eq!(got, vec![(String::from("chr2"), 20), (String::from("chr1"), 10)]);
}

#[test]
fn header_scan_of_nothing() {
    let header = scan_header(&Vec::new());
    assert!(header.text.is_empty());
    assert!(header.references.is_empty());
}

#[test]
fn nth_reference_resolves_to_n_less_one() {
    let refs = dictionary(&["chr1", "chr2", "chrX", "chrM"]);
    assert_eq!(resolve_reference(&refs, "chr1"), 0);
    assert_eq!(resolve_reference(&refs, "chr2"), 1);
    assert_eq!(resolve_reference(&refs, "chrX"), 2);
    assert_eq!(resolve_reference(&refs, "chrM"), 3);
}

#[test]
fn unresolved_reference_falls_back_to_zero() {
    let refs = dictionary(&["chr1", "chr2"]);
    assert_eq!(resolve_reference(&refs, "*"), 0);
    assert_eq!(resolve_reference(&refs, "chr3"), 0);
    assert_eq!(resolve_reference(&refs, ""), 0);
    assert_eq!(resolve_reference(&refs, "CHR2"), 0);
    assert_eq!(resolve_reference(&Vec::new(), "chr1"), 0);
}

#[test]
fn duplicate_names_keep_separate_indices() {
    let lines = vec![
        String::from("@SQ\tSN:a\tLN:1"),
        String::from("@SQ\tSN:a\tLN:2"),
        String::from("@SQ\tSN:b\tLN:3"),
    ];
    let header = scan_header(&lines);
    assert_eq!(header.references.len(), 3);
    assert_eq!(header.references[1].length, 2);
    assert_eq!(resolve_reference(&header.references, "a"), 0);
    assert_eq!(resolve_reference(&header.references, "b"), 2);
}

#[test]
fn mate_reference() {
    let refs = dictionary(&["chr1", "chr2"]);
    assert_eq!(resolve_mate(&refs, "*", 1), -1);
    assert_eq!(resolve_mate(&refs, "=", 1), 1);
    assert_eq!(resolve_mate(&refs, "=", 0), 0);
    assert_eq!(resolve_mate(&refs, "chr2", 0), 1);
    assert_eq!(resolve_mate(&refs, "chr9", 1), 0);
    assert_eq!(resolve_mate(&refs, "**", 1), 0);
}

#[test]
fn find_reference_tells_a_match_from_none() {
    let refs = dictionary(&["chr1", "chr2", "chr1"]);
    assert_eq!(find_reference(&refs, "chr1"), Some(0));
    assert_eq!(find_reference(&refs, "chr2"), Some(1));
    assert_eq!(find_reference(&refs, "*"), None);
    assert_eq!(find_reference(&refs, "chr3"), None);
    assert_eq!(find_reference(&Vec::new(), "chr1"), None);
}

#[test]
fn mate_given_by_a_name_that_none_has() {
    let refs = dictionary(&["chr1", "chr2"]);
    assert!(!mate_is_unresolved(&refs, "*"));
    assert!(!mate_is_unresolved(&refs, "="));
    assert!(!mate_is_unresolved(&refs, "chr2"));
    assert!(mate_is_unresolved(&refs, "chr9"));
    assert!(mate_is_unresolved(&refs, ""));
    assert!(mate_is_unresolved(&refs, "**"));
    assert!(!mate_is_unresolved(&Vec::new(), "*"));
    assert!(mate_is_unresolved(&Vec::new(), "chr1"));
}
