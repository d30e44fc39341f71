use sam2bam::bases::encode_seq;
use sam2bam::cigar::encode_cigar;
use sam2bam::dictionary::Reference;
use sam2bam::quality::encode_qual;
use sam2bam::record::encode_record;

fn names() -> Vec<String> {
    vec![String::from("chr1"), String::from("chr2"), String::from("chrM")]
}

fn refs() -> Vec<Reference> {
    names().into_iter().map(|name| Reference { name, length: 100 }).collect()
}

fn plain_cigar(cigar: &str) -> Vec<u8> {
    let mut out = Vec::new();
    let mut digits = String::new();
    for c in cigar.chars() {
        if c.is_ascii_digit() {
            digits.push(c);
        } else {
            let length: u32 = digits.parse().unwrap_or(0);
            let code: u32 = match c {
                'M' => 0,
                'I' => 1,
                'D' => 2,
                'N' => 3,
                'S' => 4,
                'H' => 5,
                'P' => 6,
                '=' => 7,
                'X' => 8,
                _ => 15,
            };
            out.extend_from_slice(&((length << 4) | code).to_le_bytes());
            digits.clear();
        }
    }
    out
}

fn plain_seq(seq: &str) -> Vec<u8> {
    let codes: Vec<u8> = seq
        .chars()
        .map(|c| match "=ACMGRSVTWYHKDB".find(c.to_ascii_uppercase()) {
            Some(at) => at as u8,
            None => 15,
        })
        .collect();
    codes.chunks(2).map(|pair| (pair[0] << 4) | if pair.len() == 2 { pair[1] } else { 0 }).collect()
}

fn plain_qual(qual: &str) -> Vec<u8> {
    if qual == "*" {
        vec![0xff]
    } else {
        qual.bytes().map(|b| b.saturating_sub(33)).collect()
    }
}

fn position(names: &[String], name: &str) -> i32 {
    names.iter().position(|n| n == name).unwrap_or(0) as i32
}

fn plain_record(line: &str) -> Option<Vec<u8>> {
    let fields: Vec<&str> = line.split('\t').collect();
    if fields.len() < 11 {
        return None;
    }
    let names = names();
    let own = position(&names, fields[2]);
    let mate = match fields[6] {
        "*" => -1,
        "=" => own,
        other => position(&names, other),
    };
    let mut body: Vec<u8> = Vec::new();
    body.extend_from_slice(&own.to_le_bytes());
    body.extend_from_slice(&fields[3].parse::<i32>().unwrap_or(1).wrapping_sub(1).to_le_bytes());
    body.push((fields[0].len() + 1) as u8);
    body.push(fields[4].parse::<u8>().unwrap_or(255));
    body.extend_from_slice(&0u16.to_le_bytes());
    let letters = fields[5].chars().filter(|c| c.is_ascii_alphabetic()).count();
    body.extend_from_slice(&(letters as u16).to_le_bytes());
    body.extend_from_slice(&fields[1].parse::<u16>().unwrap_or(0).to_le_bytes());
    body.extend_from_slice(&(fields[9].chars().count() as u32).to_le_bytes());
    body.extend_from_slice(&mate.to_le_bytes());
    body.extend_from_slice(&fields[7].parse::<i32>().unwrap_or(1).wrapping_sub(1).to_le_bytes());
    body.extend_from_slice(&fields[8].parse::<i32>().unwrap_or(0).to_le_bytes());
    body.extend_from_slice(fields[0].as_bytes());
    body.push(0);
    body.extend_from_slice(&plain_cigar(fields[5]));
    body.extend_from_slice(&plain_seq(fields[9]));
    body.extend_from_slice(&plain_qual(fields[10]));
    for field in fields.iter().skip(11) {
        let parts: Vec<&str> = field.splitn(3, ':').collect();
        if parts.len() != 3 {
            continue;
        }
        match parts[1] {
            "A" => {
                if let Some(first) = parts[2].as_bytes().first() {
                    body.extend_from_slice(parts[0].as_bytes());
                    body.push(0x41);
                    body.push(*first);
                }
            }
            "i" => {
                if let Ok(v) = parts[2].parse::<i32>() {
                    body.extend_from_slice(parts[0].as_bytes());
                    body.push(0x69);
                    body.extend_from_slice(&v.to_le_bytes());
                }
            }
            "Z" => {
                body.extend_from_slice(parts[0].as_bytes());
                body.push(0x5a);
                body.extend_from_slice(parts[2].as_bytes());
                body.push(0);
            }
            _ => {}
        }
    }
    let mut record = (body.len() as u32).to_le_bytes().to_vec();
    record.extend_from_slice(&body);
    Some(record)
}

fn lines() -> Vec<&'static str> {
    vec![
        "read1\t0\tchr1\t5\t60\t4M\t*\t0\t0\tACGT\tFFFF",
        "r2\t99\tchr2\t100\t30\t10M2I5=3X\t=\t300\t-250\tACGTNacgtn\tIIIIIIIIII\tNM:i:3\tRG:Z:a:b",
        "r3\t147\tchrM\t1\t0\t*\tchr1\t1\t0\t*\t*",
        "r4\t4\t*\t0\t0\t*\t*\t0\t0\tGATTACA\t!!!!!!!\tXT:A:U\tXF:f:1.0\tXB:B:c,1\tbad\tXQ:q:1",
        "r5\tflag\tchr9\tpos\tmapq\t3M2\tchr9\tpnext\ttlen\tAC-T\t  #$\tNM:i:nope\tNM:i:-7",
        "r6\t65536\tchr2\t2147483647\t256\tMIDNSHP=XB\t=\t-1\t2147483648\t=ACMGRSVTWYHKDBN\t~~~~~~~~~~~~~~~~",
        "r7\t+1\tchr1\t+5\t+6\t007M\t*\t-0\t+0\tA\t*",
        "\t\t\t\t\t\t\t\t\t\t",
        "short\tline",
        "",
        "r8\t0\tchr1\t1\t0\t4294967295M4294967296I268435456D\t*\t0\t0\tACG\tABC\t:Z:\tXX:Z:",
    ]
}

#[test]
fn records_as_the_plain_reading_gives_them() {
    for line in lines() {
        let got = encode_record(line, &refs()).map(|r| r.bytes);
        assert_eq!(got, plain_record(line));
    }
}

#[test]
fn cigars_as_the_plain_reading_gives_them() {
    for text in ["", "4M", "1M2I3D4N5S6H7P8=9X", "M", "12", "3Z4", "*", "0M", "00012S", "99999999999H"] {
        assert_eq!(encode_cigar(text), plain_cigar(text));
    }
}

#[test]
fn bases_as_the_plain_reading_gives_them() {
    for text in ["", "A", "AC", "ACG", "acgtn", "=ACMGRSVTWYHKDBN", "xyz", "N.N", "*"] {
        assert_eq!(encode_seq(text), plain_seq(text));
    }
}

#[test]
fn qualities_as_the_plain_reading_give_them() {
    for text in ["", "*", "**", "FFFF", " !\"#", "~~~", "I*I"] {
        assert_eq!(encode_qual(text), plain_qual(text));
    }
}
