//! Reading and writing MARC bibliographic records: the ISO 2709 binary envelope
//! shared by MARC21 and UNIMARC, and the MARCXML slim serialization.
pub mod encoding;
pub mod fields;
pub mod format;
pub mod laws;
pub mod parser;
pub mod record;
pub mod serde_marc;
pub mod text;
pub mod writer;
pub mod xml_laws;
pub mod xml_reader;
pub mod xml_writer;

pub use format::{Encoding, FormatEncoding, MarcFormat};
pub use record::{ControlField, DataField, Leader, Record, Subfield};
pub use fields::{
    AddedEntry, Control, Edition, Linking, MainEntry, Note, Physical, Series, Subject, Title,
};
pub use encoding::{convert_from_encoding, convert_to_utf8};
pub use parser::{parse, parse_marc21_binary, parse_unimarc_binary, ParseError};
pub use writer::{write_marc21_binary, write_one, write_unimarc_binary, WriteError};
pub use xml_reader::{parse_marc_xml, parse_xml_events, MarcXmlEvent};
pub use xml_writer::write_marc_xml;
