use journalr::check_format;
use journalr::codec::{parse_payload, ser_payload};
use journalr::date::Date;
use journalr::diary::{Diary, DiaryError, FileError};

fn day(s: &str) -> Date {
    Date::parse(s).unwrap()
}

fn sample_diary() -> Diary {
    let mut doc = Diary::new();
    doc.set(day("01-01-2024"), String::from("Hello"));
    doc.set(day("29-02-2024"), String::from("leap day\nsecond line"));
    doc.set(day("31-12-9999"), String::from("quote \" backslash \\ tab \t done"));
    doc
}

#[test]
fn payload_roundtrip() {
    let entries = vec![
        (day("01-01-2024"), String::from("Hello")),
        (day("02-01-2024"), String::from("line one\nline two\n")),
        (day("03-01-2024"), String::from("\"quoted\" and \\slashed\\")),
        (day("04-01-2024"), String::from("control: \u{1} \u{8} \u{c} \r end")),
        (day("05-01-2024"), String::from("accents and scripts")),
        (day("06-01-2024"), String::new()),
    ];
    let text = ser_payload(&entries);
    let back = parse_payload(text.as_str()).unwrap();
    assert_eq!(back.len(), entries.len());
    for (a, b) in back.iter().zip(entries.iter()) {
        assert_eq!(a.0, b.0);
        assert_eq!(a.1, b.1);
    }
}

#[test]
fn payload_canonical_form() {
    let entries = vec![(day("01-01-2024"), String::from("Hello"))];
    let text = ser_payload(&entries);
    assert_eq!(text, "{\"entries\":{\"01-01-2024\":\"Hello\"}}");
    let entries = vec![(day("01-01-2024"), String::from("a\u{1}b"))];
    let text = ser_payload(&entries);
    assert_eq!(text, "{\"entries\":{\"01-01-2024\":\"a\\u0001b\"}}");
}

#[test]
fn payload_reader_tolerates_whitespace_and_escapes() {
    let text = " { \"entries\" : { \"01-01-2024\" : \"\\u0041\\n\\t\\\"x\\\"\" } } ";
    let back = parse_payload(text).unwrap();
    assert_eq!(back.len(), 1);
    assert_eq!(back[0].0, day("01-01-2024"));
    assert_eq!(back[0].1, "A\n\t\"x\"");
    let empty = parse_payload("{\"entries\":{}}").unwrap();
    assert_eq!(empty.len(), 0);
}

#[test]
fn payload_reader_keeps_document_order() {
    let text = "{\"entries\":{\"02-01-2024\":\"b\",\"01-01-2024\":\"a\",\"02-01-2024\":\"c\"}}";
    let back = parse_payload(text).unwrap();
    assert_eq!(back.len(), 3);
    assert_eq!(back[0].1, "b");
    assert_eq!(back[1].1, "a");
    assert_eq!(back[2].1, "c");
}

#[test]
fn payload_reader_rejects_malformed_documents() {
    assert!(parse_payload("").is_none());
    assert!(parse_payload("{}").is_none());
    assert!(parse_payload("{\"entries\":[]}").is_none());
    assert!(parse_payload("{\"other\":{}}").is_none());
    assert!(parse_payload("{\"entries\":{}} trailing").is_none());
    assert!(parse_payload("{\"entries\":{\"01-01-2024\":\"a\"}").is_none());
    assert!(parse_payload("{\"entries\":{\"1-1-2024\":\"a\"}}").is_none());
    assert!(parse_payload("{\"entries\":{\"01-01-2024\":\"bad \u{1} raw\"}}").is_none());
    assert!(parse_payload("{\"entries\":{\"01-01-2024\":\"bad \\q escape\"}}").is_none());
    assert!(parse_payload("{\"entries\":{\"01-01-2024\":1}}").is_none());
}

#[test]
fn save_load_roundtrip() {
    let doc = sample_diary();
    let bytes = doc.write_to("secret123").unwrap();
    let back = Diary::load_bytes(&bytes, "secret123").unwrap();
    assert_eq!(back.entries.len(), 3);
    assert_eq!(back.get(day("01-01-2024")).unwrap(), "Hello");
    assert_eq!(back.get(day("29-02-2024")).unwrap(), "leap day\nsecond line");
    assert_eq!(back.get(day("31-12-9999")).unwrap(), "quote \" backslash \\ tab \t done");
}

#[test]
fn save_load_roundtrip_empty_credential() {
    let mut doc = Diary::new();
    doc.set(day("15-06-2024"), String::from("open"));
    let bytes = doc.write_to("").unwrap();
    let back = Diary::load_bytes(&bytes, "").unwrap();
    assert_eq!(back.get(day("15-06-2024")).unwrap(), "open");
}

#[test]
fn wrong_password_never_yields_content() {
    let doc = sample_diary();
    let bytes = doc.write_to("secret123").unwrap();
    assert_eq!(Diary::load_bytes(&bytes, "wrong").unwrap_err(), DiaryError::WrongPassword);
    assert_eq!(Diary::load_bytes(&bytes, "").unwrap_err(), DiaryError::WrongPassword);
    assert_eq!(Diary::load_bytes(&bytes, "secret12").unwrap_err(), DiaryError::WrongPassword);
}

#[test]
fn corrupted_ciphertext_reports_wrong_password() {
    let doc = sample_diary();
    let mut bytes = doc.write_to("secret123").unwrap();
    let last = bytes.len() - 1;
    bytes[last] ^= 0xff;
    assert_eq!(Diary::load_bytes(&bytes, "secret123").unwrap_err(), DiaryError::WrongPassword);
}

#[test]
fn missing_file_is_not_found() {
    assert_eq!(
        Diary::read_jrnl(Err(FileError::NotFound), "pw").unwrap_err(),
        DiaryError::NotFound
    );
    assert_eq!(
        Diary::read_jrnl(Err(FileError::Other), "pw").unwrap_err(),
        DiaryError::NotAccessible
    );
}

#[test]
fn empty_and_truncated_files_are_invalid_format() {
    assert_eq!(Diary::load_bytes(&vec![], "pw").unwrap_err(), DiaryError::InvalidFormat);
    assert_eq!(Diary::load_bytes(&vec![0u8; 10], "pw").unwrap_err(), DiaryError::InvalidFormat);
    let doc = sample_diary();
    let bytes = doc.write_to("secret123").unwrap();
    let half: Vec<u8> = bytes[..bytes.len() / 2].to_vec();
    assert_eq!(Diary::load_bytes(&half, "secret123").unwrap_err(), DiaryError::InvalidFormat);
    let header_only: Vec<u8> = bytes[..30].to_vec();
    assert_eq!(
        Diary::load_bytes(&header_only, "secret123").unwrap_err(),
        DiaryError::InvalidFormat
    );
}

#[test]
fn lying_length_containers_are_invalid_format() {
    let doc = sample_diary();
    // A sound prefix whose declared payload length is the largest possible:
    // the container must be rejected as truncated, not make decryption
    // allocate or overflow.
    let mut huge = doc.write_to("secret123").unwrap();
    for b in huge.iter_mut().take(44).skip(36) {
        *b = 0xff;
    }
    assert_eq!(Diary::load_bytes(&huge, "secret123").unwrap_err(), DiaryError::InvalidFormat);
    assert!(!check_format(&huge));
    // A container declaring one byte more than it holds is truncated too.
    let mut one_over = doc.write_to("secret123").unwrap();
    one_over[43] += 1;
    assert_eq!(Diary::load_bytes(&one_over, "secret123").unwrap_err(), DiaryError::InvalidFormat);
    assert!(!check_format(&one_over));
    // Trailing bytes beyond the declared payload stay acceptable.
    let mut padded = doc.write_to("secret123").unwrap();
    padded.push(0);
    assert!(check_format(&padded));
    assert!(Diary::load_bytes(&padded, "secret123").is_ok());
}

#[test]
fn oversized_files_are_rejected_before_decryption() {
    let big = vec![0u8; 16 * 1024 * 1024 + 1];
    assert_eq!(Diary::load_bytes(&big, "pw").unwrap_err(), DiaryError::OutOfRangeSize);
}

#[test]
fn probe_recognizes_containers_not_junk() {
    let doc = sample_diary();
    let protected = doc.write_to("secret123").unwrap();
    assert!(check_format(&protected));
    let open = doc.write_to("").unwrap();
    assert!(check_format(&open));
    assert!(!check_format(&vec![]));
    assert!(!check_format(&vec![1u8, 2, 3, 4, 5]));
    assert!(!check_format(&b"just some plain text, long enough to not be trivially short ok".to_vec()));
    let big = vec![0u8; 16 * 1024 * 1024 + 1];
    assert!(check_format(&big));
}

#[test]
fn document_map_semantics() {
    let mut doc = Diary::new();
    let d = day("01-01-2024");
    assert!(!doc.contains(d));
    assert!(doc.get(d).is_none());
    doc.set(d, String::from("one"));
    assert!(doc.contains(d));
    assert_eq!(doc.get(d).unwrap(), "one");
    doc.set(d, String::from("two"));
    assert_eq!(doc.entries.len(), 1);
    assert_eq!(doc.get(d).unwrap(), "two");
    doc.remove(d);
    assert!(!doc.contains(d));
    doc.remove(d);
    assert!(doc.get(d).is_none());
}

#[test]
fn error_messages() {
    assert_eq!(DiaryError::WrongPassword.message(), "Wrong Password");
    assert_eq!(DiaryError::InvalidFormat.message(), "Invalid File Format");
    assert_eq!(DiaryError::NotFound.message(), "File does not exist");
    assert_eq!(DiaryError::NotAccessible.message(), "Cannot Access File");
    assert_eq!(DiaryError::OutOfRangeSize.message(), "File has invalid size");
}
