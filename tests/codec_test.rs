use marc_rs::parser::ParseError;
use marc_rs::serde_marc;
use marc_rs::writer::WriteError;
use marc_rs::{
    convert_from_encoding, convert_to_utf8, parse, parse_marc_xml, parse_xml_events,
    ControlField, DataField, Encoding, FormatEncoding, Leader, MarcFormat, MarcXmlEvent, Record,
    Subfield,
};

fn leader() -> Leader {
    Leader {
        record_length: 0,
        record_status: 'n',
        record_type: 'a',
        bibliographic_level: 'm',
        type_of_control: ' ',
        character_coding_scheme: 'a',
        indicator_count: 2,
        subfield_code_count: 2,
        base_address_of_data: 0,
        encoding_level: ' ',
        descriptive_cataloging_form: 'a',
        multipart_resource_record_level: ' ',
        length_of_length_of_field_portion: 4,
        length_of_starting_character_position_portion: 5,
        length_of_implementation_defined_portion: 0,
        undefined: '0',
    }
}

fn sample_record() -> Record {
    Record {
        leader: leader(),
        control_fields: vec![ControlField { tag: "001".to_string(), value: "ocn123".to_string() }],
        data_fields: vec![DataField {
            tag: "245".to_string(),
            ind1: '1',
            ind2: '0',
            subfields: vec![
                Subfield { code: 'a', value: "Hello ".to_string() },
                Subfield { code: 'b', value: "world".to_string() },
            ],
        }],
    }
}

fn utf8_binary() -> FormatEncoding {
    FormatEncoding::new(MarcFormat::Marc21, Encoding::Utf8)
}

fn sample_image() -> Vec<u8> {
    let mut v = b"00075nam a2200049 a 4500".to_vec();
    v.extend_from_slice(b"001000700000245001800007\x1e");
    v.extend_from_slice(b"ocn123\x1e10\x1faHello \x1fbworld\x1e\x1d");
    v
}

#[test]
fn encode_lays_out_directory_and_data_area() {
    let bytes = serde_marc::to_vec(&sample_record(), utf8_binary()).unwrap();
    assert_eq!(bytes.len(), 75);
    assert_eq!(&bytes[24..49], b"001000700000245001800007\x1e");
    assert_eq!(&bytes[49..], b"ocn123\x1e10\x1faHello \x1fbworld\x1e\x1d");
    assert_eq!(bytes, sample_image());
}

#[test]
fn decode_returns_the_written_fields() {
    let records = parse(&sample_image(), utf8_binary()).unwrap();
    assert_eq!(records.len(), 1);
    let r = &records[0];
    let written = sample_record();
    assert_eq!(r.control_fields, written.control_fields);
    assert_eq!(r.data_fields, written.data_fields);
    assert_eq!(r.leader.record_length, 75);
    assert_eq!(r.leader.base_address_of_data, 49);
    assert_eq!(r.leader.character_coding_scheme, 'a');
}

#[test]
fn xml_writer_emits_slim_record() {
    let decoded = parse(&sample_image(), utf8_binary()).unwrap();
    let xml = serde_marc::to_string(&decoded[0], FormatEncoding::marc_xml()).unwrap();
    assert!(xml.starts_with("<?xml version=\"1.0\" encoding=\"UTF-8\"?>"));
    let expected = "<record xmlns=\"http://www.loc.gov/MARC21/slim\"><leader>00075nam a2200049 a 4500</leader><controlfield tag=\"001\">ocn123</controlfield><datafield tag=\"245\" ind1=\"1\" ind2=\"0\"><subfield code=\"a\">Hello </subfield><subfield code=\"b\">world</subfield></datafield></record>";
    assert!(xml.contains(expected));
}

#[test]
fn xml_reader_reads_written_record() {
    let decoded = parse(&sample_image(), utf8_binary()).unwrap();
    let xml = serde_marc::to_string(&decoded[0], FormatEncoding::marc_xml()).unwrap();
    let back = serde_marc::from_str(&xml, FormatEncoding::marc_xml()).unwrap();
    assert_eq!(back, decoded[0]);
    let written = sample_record();
    assert_eq!(back.control_fields, written.control_fields);
    assert_eq!(back.data_fields, written.data_fields);
}

#[test]
fn two_records_decode_in_order_and_reencode_identically() {
    let mut second = sample_record();
    second.control_fields[0].value = "ocn456".to_string();
    let input = serde_marc::to_vec_many(&[sample_record(), second], utf8_binary()).unwrap();
    let records = serde_marc::from_slice_many(&input, utf8_binary()).unwrap();
    assert_eq!(records.len(), 2);
    assert_eq!(records[0].control_fields[0].value, "ocn123");
    assert_eq!(records[1].control_fields[0].value, "ocn456");
    let again = serde_marc::to_vec_many(&records, utf8_binary()).unwrap();
    assert_eq!(again, input);
}

#[test]
fn short_buffer_is_bad_record_length() {
    let mut data = b"00100nam a2200049 a 4500".to_vec();
    data.resize(50, b' ');
    let result = parse(&data, utf8_binary());
    assert!(matches!(result, Err(ParseError::InvalidRecordLength(_))));
}

#[test]
fn zero_records_give_zero_bytes_and_back() {
    let bytes = serde_marc::to_vec_many(&[], utf8_binary()).unwrap();
    assert!(bytes.is_empty());
    assert_eq!(parse(&bytes, utf8_binary()).unwrap().len(), 0);
    let xml = serde_marc::to_vec_many(&[], FormatEncoding::marc_xml()).unwrap();
    assert_eq!(parse(&xml, FormatEncoding::marc_xml()).unwrap().len(), 0);
}

#[test]
fn empty_record_is_twenty_six_bytes() {
    let record = Record { leader: leader(), control_fields: vec![], data_fields: vec![] };
    let bytes = serde_marc::to_vec(&record, utf8_binary()).unwrap();
    assert_eq!(bytes.len(), 26);
    assert_eq!(&bytes[0..5], b"00026");
    assert_eq!(&bytes[12..17], b"00025");
    assert_eq!(bytes[24], 0x1e);
    assert_eq!(bytes[25], 0x1d);
    let back = parse(&bytes, utf8_binary()).unwrap();
    assert_eq!(back[0].leader.record_length, 26);
    assert_eq!(back[0].leader.base_address_of_data, 25);
}

#[test]
fn space_only_value_is_preserved() {
    let mut record = sample_record();
    record.control_fields[0].value = " ".to_string();
    record.data_fields[0].subfields[0].value = " ".to_string();
    let bytes = serde_marc::to_vec(&record, utf8_binary()).unwrap();
    let back = serde_marc::from_slice(&bytes, utf8_binary()).unwrap();
    assert_eq!(back.control_fields[0].value, " ");
    assert_eq!(back.data_fields[0].subfields[0].value, " ");
    let xml = serde_marc::to_vec(&back, FormatEncoding::marc_xml()).unwrap();
    let from_xml = serde_marc::from_slice(&xml, FormatEncoding::marc_xml()).unwrap();
    assert_eq!(from_xml.control_fields[0].value, " ");
    assert_eq!(from_xml.data_fields[0].subfields[0].value, " ");
}

#[test]
fn leader_round_trip_keeps_every_position() {
    let mut l = leader();
    l.record_length = 99;
    l.base_address_of_data = 61;
    l.indicator_count = 3;
    l.undefined = 'z';
    let back = Leader::from_bytes(&l.to_bytes()).unwrap();
    assert_eq!(back, l);
    assert_eq!(l.to_bytes(), b"00099nam a3200061 a 450z".to_vec());
}

#[test]
fn leader_with_letters_in_digits_is_rejected() {
    assert!(Leader::from_bytes(b"0007xnam a2200049 a 4500").is_err());
    assert!(Leader::from_bytes(b"00075nam ax200049 a 4500").is_err());
    assert!(Leader::from_bytes(b"00075nam a22").is_err());
    assert_eq!(Leader::from_bytes(b"70000nam a2200049 a 4500").unwrap().record_length, 70000);
    let result = parse(b"0007xnam a2200049 a 4500", utf8_binary());
    assert!(matches!(result, Err(ParseError::InvalidLeader(_))));
}

#[test]
fn bad_directory_digits_are_bad_field() {
    let mut image = sample_image();
    image[27] = b'x';
    let result = parse(&image, utf8_binary());
    assert!(matches!(result, Err(ParseError::InvalidField(_))));
}

#[test]
fn field_past_data_area_is_bad_field() {
    let mut image = sample_image();
    image[30] = b'9';
    let result = parse(&image, utf8_binary());
    assert!(matches!(result, Err(ParseError::InvalidField(_))));
}

#[test]
fn base_address_past_record_is_unexpected_end() {
    let mut image = sample_image();
    image[12..17].copy_from_slice(b"00090");
    let result = parse(&image, utf8_binary());
    assert!(matches!(result, Err(ParseError::UnexpectedEof)));
}

#[test]
fn malformed_utf8_payload_is_bad_encoding() {
    let mut image = sample_image();
    image[49] = 0xff;
    let result = parse(&image, utf8_binary());
    assert!(matches!(result, Err(ParseError::InvalidEncoding(_))));
}

#[test]
fn trailing_short_bytes_are_ignored() {
    let mut image = sample_image();
    image.extend_from_slice(b"0123456789");
    assert_eq!(parse(&image, utf8_binary()).unwrap().len(), 1);
}

#[test]
fn four_character_tag_is_invalid_record() {
    let mut record = sample_record();
    record.data_fields[0].tag = "2450".to_string();
    let result = serde_marc::to_vec(&record, utf8_binary());
    assert!(matches!(result, Err(WriteError::InvalidRecord(_))));
}

#[test]
fn unmappable_character_is_encode_error() {
    let mut record = sample_record();
    record.control_fields[0].value = "\u{3a9}".to_string();
    let result = serde_marc::to_vec(&record, FormatEncoding::new(MarcFormat::Marc21, Encoding::Iso8859_1));
    assert!(matches!(result, Err(WriteError::InvalidEncoding(_))));
}

#[test]
fn latin1_payloads_convert_both_ways() {
    assert_eq!(convert_to_utf8(&[0x63, 0x61, 0x66, 0xe9], Encoding::Iso8859_1).unwrap(), "caf\u{e9}");
    assert_eq!(convert_from_encoding("caf\u{e9}", Encoding::Marc8).unwrap(), vec![0x63, 0x61, 0x66, 0xe9]);
    assert_eq!(convert_to_utf8(&[0xc4], Encoding::Iso8859_5).unwrap(), "\u{424}");
    assert_eq!(convert_to_utf8(&[0xe9], Encoding::Iso8859_2).unwrap(), "\u{e9}");
    assert_eq!(convert_to_utf8(&[0x80, 0x9f], Encoding::Iso8859_1).unwrap(), "\u{80}\u{9f}");
    assert!(convert_from_encoding("\u{20ac}", Encoding::Marc8).is_err());
    assert_eq!(convert_from_encoding("\u{ff}", Encoding::Iso8859_1).unwrap(), vec![0xff]);
}

#[test]
fn utf8_identity_on_non_ascii_text() {
    let text = "\u{e9}t\u{e9} \u{4e16}\u{754c} \u{1f600}";
    let bytes = convert_from_encoding(text, Encoding::Utf8).unwrap();
    assert_eq!(bytes, text.as_bytes().to_vec());
    assert_eq!(convert_to_utf8(&bytes, Encoding::Utf8).unwrap(), text);
    assert!(convert_to_utf8(&[0xc3], Encoding::Utf8).is_err());
}

#[test]
fn iso5426_drops_controls_and_reads_latin_range() {
    let decoded = convert_to_utf8(&[0x41, 0x01, 0x09, 0x7f, 0xe9, 0x42], Encoding::Iso5426).unwrap();
    assert_eq!(decoded, "A\t\u{e9}B");
    assert_eq!(convert_to_utf8(&[0x85, 0xa9], Encoding::Iso5426).unwrap(), "\u{fffd}\u{a9}");
    assert!(convert_from_encoding("\u{85}", Encoding::Iso5426).is_err());
    assert_eq!(convert_from_encoding("\u{a9}\u{7f}", Encoding::Iso5426).unwrap(), vec![0xa9, 0x7f]);
    let encoded = convert_from_encoding("A\u{1}\u{e9}B", Encoding::Iso5426).unwrap();
    assert_eq!(encoded, vec![0x41, 0xe9, 0x42]);
    assert!(convert_from_encoding("\u{3a9}", Encoding::Iso5426).is_err());
}

#[test]
fn xml_values_are_escaped_and_unescaped() {
    let mut record = sample_record();
    record.data_fields[0].subfields[1].value = "a<b & \"c\"".to_string();
    let xml = serde_marc::to_string(&record, FormatEncoding::marc_xml()).unwrap();
    assert!(xml.contains("a&lt;b &amp; &quot;c&quot;"));
    let back = serde_marc::from_str(&xml, FormatEncoding::marc_xml()).unwrap();
    assert_eq!(back.data_fields[0].subfields[1].value, "a<b & \"c\"");
}

#[test]
fn xml_collection_with_prefix_and_defaults() {
    let xml = "<marc:collection xmlns:marc=\"http://www.loc.gov/MARC21/slim\">\n <marc:record>\n  <marc:leader>00000nam a2200000 a 4500</marc:leader>\n  <marc:datafield tag=\"650\"><marc:subfield code=\"a\">Cats</marc:subfield></marc:datafield>\n </marc:record>\n <marc:record><marc:controlfield tag=\"001\">x</marc:controlfield></marc:record>\n</marc:collection>";
    let records = parse(xml.as_bytes(), FormatEncoding::marc_xml()).unwrap();
    assert_eq!(records.len(), 2);
    assert_eq!(records[0].data_fields[0].ind1, ' ');
    assert_eq!(records[0].data_fields[0].ind2, ' ');
    assert_eq!(records[0].data_fields[0].subfields[0].value, "Cats");
    assert_eq!(records[1].control_fields[0].value, "x");
}

#[test]
fn xml_collection_of_many_records_round_trips() {
    let mut second = sample_record();
    second.control_fields[0].value = "ocn456".to_string();
    let records = vec![sample_record(), second];
    let xml = serde_marc::to_string_many(&records, FormatEncoding::marc_xml()).unwrap();
    assert!(xml.contains("<collection xmlns=\"http://www.loc.gov/MARC21/slim\">"));
    let back = serde_marc::from_str_many(&xml, FormatEncoding::marc_xml()).unwrap();
    assert_eq!(back, records);
}

#[test]
fn xml_missing_tag_is_bad_xml() {
    let xml = "<record><controlfield>1</controlfield></record>";
    let result = parse_marc_xml(xml.as_bytes(), FormatEncoding::marc_xml());
    assert!(matches!(result, Err(ParseError::InvalidXml(_))));
    let malformed = "<record><leader>oops</record>";
    assert!(matches!(parse(malformed.as_bytes(), FormatEncoding::marc_xml()), Err(ParseError::InvalidXml(_))));
}

#[test]
fn xml_short_leader_is_bad_leader() {
    let xml = "<record><leader>00000nam</leader></record>";
    let result = parse(xml.as_bytes(), FormatEncoding::marc_xml());
    assert!(matches!(result, Err(ParseError::InvalidLeader(_))));
}

#[test]
fn xml_events_build_records() {
    let events = vec![
        MarcXmlEvent::Start { name: "record".to_string(), tag: None, ind1: None, ind2: None, code: None },
        MarcXmlEvent::Start { name: "datafield".to_string(), tag: Some("245".to_string()), ind1: Some("1".to_string()), ind2: None, code: None },
        MarcXmlEvent::Start { name: "subfield".to_string(), tag: None, ind1: None, ind2: None, code: Some("a".to_string()) },
        MarcXmlEvent::Text { text: "Tit".to_string() },
        MarcXmlEvent::Text { text: "le".to_string() },
        MarcXmlEvent::End { name: "subfield".to_string() },
        MarcXmlEvent::End { name: "datafield".to_string() },
        MarcXmlEvent::End { name: "record".to_string() },
    ];
    let records = parse_xml_events(&events).unwrap();
    assert_eq!(records.len(), 1);
    assert_eq!(records[0].leader.indicator_count, 2);
    assert_eq!(records[0].data_fields[0].ind1, '1');
    assert_eq!(records[0].data_fields[0].ind2, ' ');
    assert_eq!(records[0].data_fields[0].subfields[0].value, "Title");
    let bad = vec![MarcXmlEvent::Start { name: "subfield".to_string(), tag: None, ind1: None, ind2: None, code: Some(String::new()) }];
    assert!(matches!(parse_xml_events(&bad), Err(ParseError::InvalidXml(_))));
}

#[test]
fn unimarc_uses_the_same_envelope() {
    let unimarc = FormatEncoding::unimarc_default();
    let a = serde_marc::to_vec(&sample_record(), unimarc).unwrap();
    let b = serde_marc::to_vec(&sample_record(), utf8_binary()).unwrap();
    assert_eq!(a, b);
    assert_eq!(serde_marc::from_slice(&a, unimarc).unwrap().data_fields, sample_record().data_fields);
}

#[test]
fn records_past_sixty_five_thousand_bytes_are_written_and_read() {
    let mut record = sample_record();
    record.control_fields.clear();
    for i in 0..8 {
        record.data_fields.push(DataField {
            tag: format!("50{}", i),
            ind1: ' ',
            ind2: ' ',
            subfields: vec![Subfield { code: 'a', value: "x".repeat(9000) }],
        });
    }
    let bytes = serde_marc::to_vec(&record, utf8_binary()).unwrap();
    assert!(bytes.len() > 70000 && bytes.len() < 100000);
    assert_eq!(std::str::from_utf8(&bytes[0..5]).unwrap().parse::<usize>().unwrap(), bytes.len());
    let back = serde_marc::from_slice(&bytes, utf8_binary()).unwrap();
    assert_eq!(back.data_fields, record.data_fields);
    assert_eq!(back.leader.record_length as usize, bytes.len());
}

#[test]
fn records_of_a_hundred_thousand_bytes_are_refused() {
    let mut record = sample_record();
    for i in 0..11 {
        record.data_fields.push(DataField {
            tag: format!("50{}", i % 10),
            ind1: ' ',
            ind2: ' ',
            subfields: vec![Subfield { code: 'a', value: "x".repeat(9500) }],
        });
    }
    let result = serde_marc::to_vec(&record, utf8_binary());
    assert!(matches!(result, Err(WriteError::InvalidRecord(_))));
}

#[test]
fn xml_empty_elements_and_declaration_only() {
    let only_decl = "<?xml version=\"1.0\" encoding=\"UTF-8\"?>";
    assert_eq!(parse(only_decl.as_bytes(), FormatEncoding::marc_xml()).unwrap().len(), 0);
    let xml = "<record><controlfield tag=\"001\"/><datafield tag=\"245\" ind1=\"1\"><subfield code=\"a\"/></datafield></record>";
    let records = parse(xml.as_bytes(), FormatEncoding::marc_xml()).unwrap();
    assert_eq!(records[0].control_fields[0].value, "");
    assert_eq!(records[0].data_fields[0].subfields[0].value, "");
}

#[test]
fn xml_reads_the_written_sample_exactly() {
    let xml = "<?xml version=\"1.0\" encoding=\"UTF-8\"?><record xmlns=\"http://www.loc.gov/MARC21/slim\"><leader>00075nam a2200049 a 4500</leader><controlfield tag=\"001\">ocn123</controlfield><datafield tag=\"245\" ind1=\"1\" ind2=\"0\"><subfield code=\"a\">Hello </subfield><subfield code=\"b\">world</subfield></datafield></record>";
    let record = serde_marc::from_str(xml, FormatEncoding::marc_xml()).unwrap();
    let written = sample_record();
    assert_eq!(record.control_fields, written.control_fields);
    assert_eq!(record.data_fields, written.data_fields);
    assert_eq!(record.leader, Leader::from_bytes(b"00075nam a2200049 a 4500").unwrap());
}
