use sfv::{Crc32Digest, Error, ParseSfvRecordError, SfvCreator, SfvRecord, Validator};
use sfv::text::push_hex;
use sfv::validation::is_comment_line;

fn digest_of(bytes: &[u8]) -> Crc32Digest {
    let mut digest = Crc32Digest::new();
    digest.update(bytes);
    digest
}

fn lines(text: &[&str]) -> Vec<String> {
    text.iter().map(|l| l.to_string()).collect()
}

#[test]
fn enhanced_digest_works() {
    let content = b"123456789";
    let mut digest = Crc32Digest::new();

    digest.update(content);

    assert_eq!(crc::crc32::checksum_ieee(content), digest.value());
}

#[test]
fn well_formed_records_are_parsed() {
    let test_records = &[
        "file_one.zip   c45ad668",
        "file_two.zip   7903b8e6   ",
        "file_three.zip e99a65fb",
    ];

    assert!(test_records.iter().all(|record| record.parse::<SfvRecord>().is_ok()));
}

#[test]
fn known_check_value() {
    assert_eq!(digest_of(b"123456789").value(), 0xCBF43926);
}

#[test]
fn new_digest_is_zero() {
    assert_eq!(Crc32Digest::new().value(), 0);
    assert_eq!(Crc32Digest::default().value(), 0);
    assert_eq!(digest_of(b"").value(), 0);
}

#[test]
fn chunking_does_not_change_checksum() {
    let data = b"The quick brown fox jumps over the lazy dog";
    let mut bytewise = Crc32Digest::new();
    for b in data.iter() {
        bytewise.update(&[*b]);
    }
    let mut halves = Crc32Digest::new();
    halves.update(&data[..17]);
    halves.update(&data[17..]);
    let whole = digest_of(data);
    assert_eq!(bytewise.value(), whole.value());
    assert_eq!(halves.value(), whole.value());
    assert_eq!(whole.value(), 0x414FA339);
}

#[test]
fn hello_checksum() {
    assert_eq!(digest_of(b"hello").value(), 0x3610a686);
}

#[test]
fn parse_reads_path_and_checksum() {
    let r = SfvRecord::parse("file_two.zip   7903b8e6   ").unwrap();
    assert_eq!(r.path(), "file_two.zip");
    assert_eq!(r.checksum(), 0x7903b8e6);
    let r: SfvRecord = "\t a.txt\u{3000}ABCDEF01\n".parse().unwrap();
    assert_eq!(r.path(), "a.txt");
    assert_eq!(r.checksum(), 0xabcdef01);
}

#[test]
fn parse_accepts_plus_and_leading_zeros() {
    assert_eq!(SfvRecord::parse("a +ff").unwrap().checksum(), 0xff);
    assert_eq!(SfvRecord::parse("a 000000000001").unwrap().checksum(), 1);
    assert_eq!(SfvRecord::parse("a ffffffff").unwrap().checksum(), u32::MAX);
}

#[test]
fn parse_rejects_empty_line() {
    assert_eq!(SfvRecord::parse("").unwrap_err(), ParseSfvRecordError::MissingFilePath);
    assert_eq!(SfvRecord::parse("  \t ").unwrap_err(), ParseSfvRecordError::MissingFilePath);
}

#[test]
fn parse_rejects_missing_checksum() {
    assert_eq!(SfvRecord::parse("foo.txt").unwrap_err(), ParseSfvRecordError::MissingChecksum);
}

#[test]
fn parse_rejects_extra_token() {
    assert_eq!(
        SfvRecord::parse("foo.txt abc123 extra").unwrap_err(),
        ParseSfvRecordError::TooLong
    );
    assert_eq!(SfvRecord::parse("foo.txt zzzz extra").unwrap_err(), ParseSfvRecordError::TooLong);
}

#[test]
fn parse_rejects_invalid_checksum() {
    assert_eq!(
        SfvRecord::parse("foo.txt zzzz").unwrap_err(),
        ParseSfvRecordError::InvalidChecksum
    );
    for bad in ["a +", "a -1", "a 100000000", "a 0x10", "a 12g"] {
        assert_eq!(SfvRecord::parse(bad).unwrap_err(), ParseSfvRecordError::InvalidChecksum);
    }
}

#[test]
fn record_line_is_lowercase_hex() {
    let mut out = String::new();
    SfvRecord::new("dir/file.bin".to_string(), 0xCBF43926).write(&mut out);
    assert_eq!(out, "dir/file.bin cbf43926\n");
    let mut out = String::new();
    SfvRecord::new("z".to_string(), 0).write(&mut out);
    assert_eq!(out, "z 0\n");
}

#[test]
fn hex_rendering_has_no_padding() {
    let mut out = String::from("x");
    push_hex(&mut out, 0x0a0);
    assert_eq!(out, "xa0");
}

#[test]
fn serialize_then_parse_round_trips() {
    for (path, checksum) in [("a.txt", 0x3610a686u32), ("b", 0), ("c/d.e", u32::MAX)] {
        let mut out = String::new();
        SfvRecord::new(path.to_string(), checksum).write(&mut out);
        let back = SfvRecord::parse(&out).unwrap();
        assert_eq!(back.path(), path);
        assert_eq!(back.checksum(), checksum);
    }
}

#[test]
fn validate_accepts_either_case_and_detects_flip() {
    let found = Some(digest_of(b"hello").value());
    assert!(SfvRecord::parse("a.txt 3610a686").unwrap().validate(found));
    assert!(SfvRecord::parse("a.txt 3610A686").unwrap().validate(found));
    assert!(!SfvRecord::parse("a.txt 3610a687").unwrap().validate(found));
    assert!(!SfvRecord::parse("a.txt 4610a686").unwrap().validate(found));
}

#[test]
fn validate_fails_when_file_is_missing() {
    let r = SfvRecord::new("does/not/exist".to_string(), 0);
    assert!(!r.validate(None));
}

#[test]
fn creator_writes_header_and_lines() {
    let mut creator = SfvCreator::new();
    creator.add_path("a.txt".to_string(), digest_of(b"hello"));
    let mut out = String::new();
    creator.write(&mut out);
    assert_eq!(out, ";created using rust-sfv\na.txt 3610a686\n");
}

#[test]
fn creator_keeps_insertion_order() {
    let mut creator = SfvCreator::default();
    creator.add_path("b".to_string(), digest_of(b"123456789"));
    creator.add_path("a".to_string(), digest_of(b""));
    creator.add_path("b".to_string(), digest_of(b"hello"));
    let mut out = String::new();
    creator.write(&mut out);
    assert_eq!(out, ";created using rust-sfv\nb cbf43926\na 0\nb 3610a686\n");
}

#[test]
fn comment_lines_are_recognised() {
    assert!(is_comment_line(";created using rust-sfv"));
    assert!(is_comment_line("   ; indented"));
    assert!(!is_comment_line("a.txt ;"));
    assert!(!is_comment_line(""));
}

#[test]
fn validator_loads_and_checks_records() {
    let v = Validator::from_lines(&lines(&[
        ";created using rust-sfv",
        "a.txt 3610a686",
        "  ; note",
        "b.txt CBF43926",
    ]))
    .ok()
    .unwrap();
    assert_eq!(v.records().len(), 2);
    assert_eq!(v.records()[1].path(), "b.txt");
    let hello = digest_of(b"hello").value();
    let digits = digest_of(b"123456789").value();
    assert!(v.validate(&vec![Some(hello), Some(digits)]));
    assert!(!v.validate(&vec![Some(hello), None]));
    assert!(!v.validate(&vec![Some(digits), Some(digits)]));
}

#[test]
fn validator_stops_at_first_bad_line() {
    match Validator::from_lines(&lines(&["a.txt 1", "b.txt", "c.txt zz"])) {
        Err(Error::Format(e)) => assert_eq!(e, ParseSfvRecordError::MissingChecksum),
        _ => panic!("expected a format error"),
    }
    match Validator::from_lines(&lines(&["a.txt 1", "", "c.txt 2"])) {
        Err(Error::Format(e)) => assert_eq!(e, ParseSfvRecordError::MissingFilePath),
        _ => panic!("expected a format error"),
    }
}

#[test]
fn empty_manifest_validates() {
    let v = Validator::from_lines(&Vec::new()).ok().unwrap();
    assert!(v.validate(&Vec::new()));
}

#[test]
fn errors_convert() {
    let e: Error = std::io::Error::new(std::io::ErrorKind::NotFound, "gone").into();
    assert!(matches!(e, Error::IO(_)));
    let e: Error = ParseSfvRecordError::TooLong.into();
    assert!(matches!(e, Error::Format(ParseSfvRecordError::TooLong)));
}

#[test]
fn digest_renders_as_hex() {
    assert_eq!(digest_of(b"hello").to_hex(), "3610a686");
    assert_eq!(Crc32Digest::new().to_hex(), "0");
}

#[test]
fn empty_creator_writes_only_header() {
    let mut out = String::new();
    SfvCreator::new().write(&mut out);
    assert_eq!(out, ";created using rust-sfv\n");
}

#[test]
fn from_str_matches_parse() {
    assert!(matches!("".parse::<SfvRecord>(), Err(ParseSfvRecordError::MissingFilePath)));
    assert!(matches!("foo.txt".parse::<SfvRecord>(), Err(ParseSfvRecordError::MissingChecksum)));
    assert!(matches!("foo.txt zzzz extra".parse::<SfvRecord>(), Err(ParseSfvRecordError::TooLong)));
    assert!(matches!(
        "foo.txt 100000000".parse::<SfvRecord>(),
        Err(ParseSfvRecordError::InvalidChecksum)
    ));
    let upper: SfvRecord = "Foo.TXT ABC123".parse().unwrap();
    let lower: SfvRecord = "Foo.TXT abc123".parse().unwrap();
    assert_eq!(upper.path(), "Foo.TXT");
    assert_eq!(upper.checksum(), 0xabc123);
    assert_eq!(lower.checksum(), upper.checksum());
}
