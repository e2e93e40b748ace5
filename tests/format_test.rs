use marc_rs::format::{default_encoding, detect_format, encoding_from_name, format_from_name};
use marc_rs::{Encoding, MarcFormat};

#[test]
fn names_are_read_in_any_case() {
    assert_eq!(format_from_name("MARC21"), Some(MarcFormat::Marc21));
    assert_eq!(format_from_name("UniMarc"), Some(MarcFormat::Unimarc));
    assert_eq!(format_from_name("XML"), Some(MarcFormat::MarcXml));
    assert_eq!(format_from_name("json"), None);
    assert_eq!(encoding_from_name("LATIN1"), Some(Encoding::Iso8859_1));
    assert_eq!(encoding_from_name("Iso-5426"), Some(Encoding::Iso5426));
    assert_eq!(encoding_from_name("latin-9"), Some(Encoding::Iso8859_15));
    assert_eq!(encoding_from_name("ebcdic"), None);
}

#[test]
fn from_str_falls_back_to_defaults() {
    assert_eq!(MarcFormat::from("Xml"), MarcFormat::MarcXml);
    assert_eq!(MarcFormat::from("something"), MarcFormat::Marc21);
    assert_eq!(Encoding::from("MARC-8"), Encoding::Marc8);
    assert_eq!(Encoding::from("something"), Encoding::Utf8);
}

#[test]
fn formats_are_detected_from_first_bytes() {
    assert_eq!(detect_format(b"<?xml version=\"1.0\"?><record/>"), Some(MarcFormat::MarcXml));
    assert_eq!(detect_format(b"<collection>"), Some(MarcFormat::MarcXml));
    assert_eq!(detect_format(b"00026nam a2200025 a 4500\x1e\x1d"), Some(MarcFormat::Marc21));
    assert_eq!(detect_format(b"short"), None);
    assert_eq!(default_encoding(MarcFormat::Marc21), Encoding::Marc8);
    assert_eq!(default_encoding(MarcFormat::MarcXml), Encoding::Utf8);
}
