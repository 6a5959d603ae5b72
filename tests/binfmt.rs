use rcxtool::binfmt::{ParseError, RcxBin, Section, SectionType, Symbol};
use rcxtool::download::{checksum, frame, FinalBlock};

const SAMPLE: [u8; 45] = [
    0x52, 0x43, 0x58, 0x49, 0x02, 0x01, 0x01, 0x00, 0x01, 0x00, 0x00, 0x00, 0x00, 0x00, 0x14,
    0x00, 0x13, 0x07, 0x02, 0x07, 0xe1, 0x87, 0x13, 0x01, 0x02, 0x32, 0xe1, 0x81, 0x21, 0x81,
    0x43, 0x02, 0x64, 0x00, 0x21, 0x41, 0x00, 0x00, 0x05, 0x00, 0x6d, 0x61, 0x69, 0x6e, 0x00,
];

fn header(sections: u16, symbols: u16) -> Vec<u8> {
    let mut v = b"RCXI".to_vec();
    v.extend_from_slice(&[0x02, 0x01]);
    v.extend_from_slice(&sections.to_le_bytes());
    v.extend_from_slice(&symbols.to_le_bytes());
    v.extend_from_slice(&[0, 0]);
    v
}

fn section_record(kind: u8, number: u8, data: &[u8]) -> Vec<u8> {
    let mut v = vec![kind, number];
    v.extend_from_slice(&(data.len() as u16).to_le_bytes());
    v.extend_from_slice(data);
    v
}

#[test]
fn parse_sample() {
    let bin = RcxBin::parse(&SAMPLE).unwrap();
    assert_eq!(
        bin,
        RcxBin {
            signature: *b"RCXI",
            version: 0x0102,
            section_count: 1,
            symbol_count: 1,
            target_type: 0,
            reserved: 0,
            sections: vec![Section {
                ty: SectionType::Task,
                number: 0,
                length: 20,
                data: vec![
                    0x13, 0x7, 0x2, 0x7, 0xe1, 0x87, 0x13, 0x1, 0x2, 0x32, 0xe1, 0x81, 0x21, 0x81,
                    0x43, 0x2, 0x64, 0x0, 0x21, 0x41
                ]
            }],
            symbols: vec![Symbol {
                ty: 0,
                index: 0,
                length: 5,
                name: b"main".to_vec(),
            }],
        }
    );
}

#[test]
fn sample_renders_one_section_and_one_symbol() {
    let bin = RcxBin::parse(&SAMPLE).unwrap();
    let text = bin.to_string();
    let expected = "Signature: RCXI\n\
                    Version: 102\n\
                    1 sections, 1 symbols\n\
                    Target: 0\n\
                    Sections:\n  \
                    Task - 20 bytes\n    \
                    13070207e18713010232e1812181430264002141\n\n\
                    Symbols:\n  \
                    0 at 0 - 5 bytes\n    \
                    \"main\"\n\n";
    assert_eq!(text, expected);
    assert_eq!(text.matches(" bytes\n").count(), 2);
    assert!(text.contains("\"main\""));
}

#[test]
fn section_renders_payload_in_hex() {
    let s = Section { ty: SectionType::Sound, number: 3, length: 3, data: vec![0x00, 0xab, 0x0f] };
    assert_eq!(s.to_string(), "  Sound - 3 bytes\n    00ab0f\n");
}

#[test]
fn symbol_renders_escaped_name() {
    let s = Symbol { ty: 7, index: 12, length: 4, name: b"a\"b".to_vec() };
    assert_eq!(s.to_string(), "  7 at 12 - 4 bytes\n    \"a\\\"b\"\n");
}

#[test]
fn version_renders_in_lowercase_hex() {
    let mut bytes = SAMPLE.to_vec();
    bytes[4] = 0xcd;
    bytes[5] = 0xab;
    let bin = RcxBin::parse(&bytes).unwrap();
    assert!(bin.to_string().contains("Version: abcd\n"));
}

#[test]
fn wrong_signature_is_rejected() {
    let mut bytes = SAMPLE.to_vec();
    bytes[3] = b'X';
    assert_eq!(RcxBin::parse(&bytes), Err(ParseError::BadSignature));
    assert_eq!(RcxBin::parse(b"RCX"), Err(ParseError::BadSignature));
    assert_eq!(RcxBin::parse(&[]), Err(ParseError::BadSignature));
}

#[test]
fn truncated_input_is_rejected() {
    assert_eq!(RcxBin::parse(b"RCXI\x02\x01"), Err(ParseError::Truncated));
    for cut in 12..SAMPLE.len() {
        assert_eq!(RcxBin::parse(&SAMPLE[..cut]), Err(ParseError::Truncated), "cut at {cut}");
    }
}

#[test]
fn unknown_section_kind_is_rejected() {
    let mut bytes = SAMPLE.to_vec();
    bytes[12] = 5;
    assert_eq!(RcxBin::parse(&bytes), Err(ParseError::UnknownSectionKind));
}

#[test]
fn every_known_section_kind_parses() {
    let kinds = [
        SectionType::Task,
        SectionType::SubChunk,
        SectionType::Sound,
        SectionType::Animation,
        SectionType::Count,
    ];
    for (b, kind) in kinds.iter().enumerate() {
        assert_eq!(SectionType::parse(&[b as u8, 9]), Ok(*kind));
    }
    assert_eq!(SectionType::parse(&[]), Err(ParseError::Truncated));
    assert_eq!(SectionType::parse(&[200]), Err(ParseError::UnknownSectionKind));
}

#[test]
fn symbol_name_without_terminator_is_rejected() {
    let mut bytes = SAMPLE.to_vec();
    let last = bytes.len() - 1;
    bytes[last] = b'x';
    assert_eq!(RcxBin::parse(&bytes), Err(ParseError::NameNotTerminated));
    let mut inner = SAMPLE.to_vec();
    inner[41] = 0;
    assert_eq!(RcxBin::parse(&inner), Err(ParseError::NameNotTerminated));
}

#[test]
fn empty_symbol_name_is_rejected() {
    let mut bytes = header(0, 1);
    bytes.extend_from_slice(&[0, 0, 0, 0]);
    assert_eq!(RcxBin::parse(&bytes), Err(ParseError::NameNotTerminated));
}

#[test]
fn image_without_records_parses() {
    let bin = RcxBin::parse(&header(0, 0)).unwrap();
    assert!(bin.sections.is_empty());
    assert!(bin.symbols.is_empty());
    assert_eq!(bin.verify(), Ok(()));
}

#[test]
fn count_mismatch_fails_verification() {
    let mut bin = RcxBin::parse(&SAMPLE).unwrap();
    bin.section_count = 2;
    assert_eq!(bin.verify(), Err(ParseError::CountMismatch));
    let mut bin = RcxBin::parse(&SAMPLE).unwrap();
    bin.symbol_count = 0;
    assert_eq!(bin.verify(), Err(ParseError::CountMismatch));
    let mut short = SAMPLE.to_vec();
    short[6] = 2;
    assert_eq!(RcxBin::parse(&short), Err(ParseError::Truncated));
}

#[test]
fn more_than_ten_sections_is_rejected() {
    let mut bytes = header(11, 0);
    for n in 0..11 {
        bytes.extend(section_record(0, n, &[n]));
    }
    assert_eq!(RcxBin::parse(&bytes), Err(ParseError::TooManySections));

    let mut ten = header(10, 0);
    for n in 0..10 {
        ten.extend(section_record(0, n, &[n]));
    }
    assert_eq!(RcxBin::parse(&ten).unwrap().sections.len(), 10);
}

#[test]
fn duplicate_section_numbers_are_rejected() {
    let mut bytes = header(3, 0);
    bytes.extend(section_record(0, 4, &[1]));
    bytes.extend(section_record(1, 2, &[2, 3]));
    bytes.extend(section_record(2, 4, &[]));
    assert_eq!(RcxBin::parse(&bytes), Err(ParseError::DuplicateSectionNumber));
}

#[test]
fn sections_keep_file_order() {
    let mut bytes = header(2, 0);
    bytes.extend(section_record(1, 7, &[1, 2]));
    bytes.extend(section_record(3, 2, &[3]));
    let bin = RcxBin::parse(&bytes).unwrap();
    assert_eq!(bin.sections[0].number, 7);
    assert_eq!(bin.sections[0].ty, SectionType::SubChunk);
    assert_eq!(bin.sections[1].number, 2);
    assert_eq!(bin.sections[1].ty, SectionType::Animation);
    assert_eq!(bin.sections[1].data, vec![3]);
}

#[test]
fn checksum_wraps_modulo_256() {
    assert_eq!(checksum(&[]), 0);
    assert_eq!(checksum(&[200, 100]), 44);
    assert_eq!(checksum(&[0; 300]), 0);
    assert_eq!(checksum(&SAMPLE[16..36]), 226);
}

#[test]
fn empty_payload_has_no_blocks() {
    assert!(frame(&[], FinalBlock::Natural).is_empty());
    assert!(frame(&[], FinalBlock::ZeroPadded).is_empty());
}

#[test]
fn payload_of_300_bytes_frames_into_two_blocks() {
    let data: Vec<u8> = (0..300u32).map(|i| (i % 256) as u8).collect();
    let blocks = frame(&data, FinalBlock::Natural);
    assert_eq!(blocks.len(), 2);
    assert_eq!(blocks[0].index, 1);
    assert_eq!(blocks[0].length, 256);
    assert_eq!(blocks[0].data, data[..256].to_vec());
    assert_eq!(blocks[0].checksum, 128);
    assert_eq!(blocks[1].index, 0);
    assert_eq!(blocks[1].length, 44);
    assert_eq!(blocks[1].data, data[256..].to_vec());
    assert_eq!(blocks[1].checksum, 178);
}

#[test]
fn zero_padded_final_block_is_full() {
    let data: Vec<u8> = (0..300u32).map(|i| (i % 256) as u8).collect();
    let blocks = frame(&data, FinalBlock::ZeroPadded);
    assert_eq!(blocks.len(), 2);
    assert_eq!(blocks[1].index, 0);
    assert_eq!(blocks[1].length, 256);
    assert_eq!(blocks[1].data[..44].to_vec(), data[256..].to_vec());
    assert!(blocks[1].data[44..].iter().all(|b| *b == 0));
    assert_eq!(blocks[1].checksum, 178);
}

#[test]
fn block_indices_count_up_and_end_at_zero() {
    let one = frame(&[1u8; 256], FinalBlock::Natural);
    assert_eq!(one.len(), 1);
    assert_eq!(one[0].index, 0);
    assert_eq!(one[0].checksum, 0);

    let data = vec![1u8; 513];
    let blocks = frame(&data, FinalBlock::Natural);
    let indices: Vec<i16> = blocks.iter().map(|b| b.index).collect();
    assert_eq!(indices, vec![1, 2, 0]);
    assert_eq!(blocks[2].length, 1);
    assert_eq!(blocks[2].checksum, 1);

    let full = frame(&vec![0u8; 65535], FinalBlock::Natural);
    assert_eq!(full.len(), 256);
    assert_eq!(full[254].index, 255);
    assert_eq!(full[255].index, 0);
    assert_eq!(full[255].length, 255);
}

#[test]
fn bytes_after_the_last_symbol_are_rejected() {
    let mut bytes = SAMPLE.to_vec();
    bytes.push(0);
    assert_eq!(RcxBin::parse(&bytes), Err(ParseError::TrailingBytes));
    let mut bare = header(0, 0);
    bare.push(7);
    assert_eq!(RcxBin::parse(&bare), Err(ParseError::TrailingBytes));
}
