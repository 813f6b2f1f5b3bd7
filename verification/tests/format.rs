use platypus_core::error::Error;
use platypus_core::format::{Document, Line, LineEnding};

fn roundtrips(raw: &[u8]) {
    let doc = Document::parse(raw).unwrap();
    assert_eq!(doc.to_bytes(), raw, "round trip mismatch");
}

#[test]
fn crlf_lines_roundtrip() {
    roundtrips(b"TargetModel\tBCDx36HP\r\nFormatVersion\t1.00\r\n");
}

#[test]
fn bare_lf_is_preserved() {
    roundtrips(b"A\tb\r\nC\td\nE\tf\r\n");
}

#[test]
fn missing_final_newline_is_preserved() {
    roundtrips(b"A\tb\r\nC\td");
}

#[test]
fn empty_fields_and_blank_lines_roundtrip() {
    roundtrips(b"Site\t\t\tPrimary\r\n\r\n");
}

#[test]
fn header_and_counts() {
    let doc =
        Document::parse(b"TargetModel\tBCDx36HP\r\nFormatVersion\t1.00\r\nSite\t\t\tA\r\n").unwrap();
    let h = doc.header();
    assert_eq!(h.target_model.as_deref(), Some("BCDx36HP"));
    assert_eq!(h.format_version.as_deref(), Some("1.00"));
    let counts = doc.command_counts();
    assert_eq!(
        counts.iter().find(|(c, _)| c == "Site").map(|(_, n)| *n),
        Some(1)
    );
}

#[test]
fn non_ascii_is_rejected() {
    let err = Document::parse(b"Site\t\xFF\r\n").unwrap_err();
    assert!(matches!(err, Error::NonAscii { byte: 0xFF, .. }));
}

#[test]
fn embedded_nul_is_rejected() {
    let err = Document::parse(b"Site\t\x00\r\n").unwrap_err();
    assert!(matches!(err, Error::NonAscii { byte: 0x00, .. }));
}

#[test]
fn control_byte_is_rejected() {
    let err = Document::parse(b"Site\t\x07\r\n").unwrap_err();
    assert!(matches!(err, Error::NonAscii { byte: 0x07, .. }));
}

#[test]
fn empty_input_is_a_valid_empty_document() {
    let doc = Document::parse(b"").unwrap();
    assert!(doc.lines.is_empty());
    assert_eq!(doc.to_bytes(), b"");
}

#[test]
fn del_boundary_follows_the_printable_rule() {
    roundtrips(b"Site\t~\r\n");
    let err = Document::parse(b"Site\t\x7F\r\n").unwrap_err();
    assert!(matches!(err, Error::NonAscii { byte: 0x7F, .. }));
}

#[test]
fn error_offset_is_the_first_bad_byte() {
    let err = Document::parse(b"A\tb\r\nC\x01\xFF\n").unwrap_err();
    assert_eq!(err, Error::NonAscii { offset: 6, byte: 0x01 });
}

#[test]
fn fields_and_endings_are_split_exactly() {
    let doc = Document::parse(b"A\t\tb\r\nC\rd\nE").unwrap();
    assert_eq!(doc.lines.len(), 3);
    assert_eq!(doc.lines[0].fields, vec!["A", "", "b"]);
    assert_eq!(doc.lines[0].ending, LineEnding::Crlf);
    assert_eq!(doc.lines[1].fields, vec!["C\rd"]);
    assert_eq!(doc.lines[1].ending, LineEnding::Lf);
    assert_eq!(doc.lines[2].fields, vec!["E"]);
    assert_eq!(doc.lines[2].ending, LineEnding::Unterminated);
    assert_eq!(doc.lines[0].command(), "A");
    assert_eq!(doc.lines[0].field(2), Some("b"));
    assert_eq!(doc.lines[0].field(3), None);
    assert_eq!(doc.field_value("C\rd"), None);
    assert_eq!(doc.field_value("A"), Some(String::new()));
}

#[test]
fn line_ending_bytes() {
    assert_eq!(LineEnding::Crlf.as_bytes(), b"\r\n");
    assert_eq!(LineEnding::Lf.as_bytes(), b"\n");
    assert_eq!(LineEnding::Unterminated.as_bytes(), b"");
    let l = Line { fields: vec![], ending: LineEnding::Lf };
    assert_eq!(l.command(), "");
}

#[test]
fn error_messages_name_the_byte_and_offset() {
    let e = platypus_core::Error::NonAscii { offset: 42, byte: 0x1F };
    assert_eq!(e.message(), "non-ASCII byte 0x1F at offset 42 (file spec requires ASCII)");
    let e2 = platypus_core::Error::NonAscii { offset: 0, byte: 0xC3 };
    assert_eq!(e2.message(), "non-ASCII byte 0xC3 at offset 0 (file spec requires ASCII)");
    assert_eq!(platypus_core::Error::UnknownModel.message(), "no scanner profile matched the file header");
    assert_eq!(
        platypus_core::Error::NotInCore("fetch").message(),
        "operation not available in platypus-core: fetch"
    );
}
