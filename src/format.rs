use crate::text::str_eq;
use vstd::prelude::*;

verus! {

/// MARC format families.
#[derive(Debug, Clone, Copy, PartialEq, Eq, Structural)]
pub enum MarcFormat {
    /// MARC21 bibliographic format (ISO 2709 envelope)
    Marc21,
    /// UNIMARC bibliographic format (ISO 2709 envelope)
    Unimarc,
    /// MARCXML, slim schema
    MarcXml,
}

/// Character encodings of field payloads.
#[derive(Debug, Clone, Copy, PartialEq, Eq, Structural)]
pub enum Encoding {
    /// UTF-8
    Utf8,
    /// MARC-8 (MARC21's default); read and written as Latin-1
    Marc8,
    /// ISO 8859-1 (Latin-1)
    Iso8859_1,
    /// ISO 8859-2 (Latin-2)
    Iso8859_2,
    /// ISO 8859-5 (Cyrillic)
    Iso8859_5,
    /// ISO 8859-7 (Greek)
    Iso8859_7,
    /// ISO 8859-15 (Latin-9)
    Iso8859_15,
    /// ISO 5426 (extended Latin alphabet for bibliographic interchange)
    Iso5426,
}

/// A dialect selector: the wire format together with the payload encoding.
#[derive(Debug, Clone, Copy, PartialEq, Eq, Structural)]
pub struct FormatEncoding {
    pub format: MarcFormat,
    pub encoding: Encoding,
}

impl FormatEncoding {
    /// Pairs a format with an encoding.
    pub fn new(format: MarcFormat, encoding: Encoding) -> (r: Self)
        ensures
            r.format == format,
            r.encoding == encoding,
    {
        Self { format, encoding }
    }

    /// MARC21 binary with its default encoding, MARC-8.
    pub fn marc21_default() -> (r: Self)
        ensures
            r.format == MarcFormat::Marc21,
            r.encoding == Encoding::Marc8,
    {
        Self { format: MarcFormat::Marc21, encoding: Encoding::Marc8 }
    }

    /// UNIMARC binary with its default encoding, UTF-8.
    pub fn unimarc_default() -> (r: Self)
        ensures
            r.format == MarcFormat::Unimarc,
            r.encoding == Encoding::Utf8,
    {
        Self { format: MarcFormat::Unimarc, encoding: Encoding::Utf8 }
    }

    /// MARCXML, which is always UTF-8.
    pub fn marc_xml() -> (r: Self)
        ensures
            r.format == MarcFormat::MarcXml,
            r.encoding == Encoding::Utf8,
    {
        Self { format: MarcFormat::MarcXml, encoding: Encoding::Utf8 }
    }
}

/// What `str::to_lowercase` makes of a text.
pub uninterp spec fn lower_of(s: Seq<char>) -> Seq<char>;

/// Relies on `str::to_lowercase`: the result depends on the characters alone.
#[verifier::external_body]
fn lowercase(s: &str) -> (r: String)
    ensures
        r@ == lower_of(s@),
{
    s.to_lowercase()
}

/// The format that a lower-case name stands for.
pub open spec fn format_named(t: Seq<char>) -> Option<MarcFormat> {
    if t == "marc21"@ || t == "marc"@ {
        Some(MarcFormat::Marc21)
    } else if t == "unimarc"@ {
        Some(MarcFormat::Unimarc)
    } else if t == "xml"@ {
        Some(MarcFormat::MarcXml)
    } else {
        None
    }
}

/// The encoding that a lower-case name stands for.
pub open spec fn encoding_named(t: Seq<char>) -> Option<Encoding> {
    if t == "utf8"@ || t == "utf-8"@ {
        Some(Encoding::Utf8)
    } else if t == "marc8"@ || t == "marc-8"@ {
        Some(Encoding::Marc8)
    } else if t == "iso8859-1"@ || t == "latin1"@ || t == "latin-1"@ {
        Some(Encoding::Iso8859_1)
    } else if t == "iso8859-2"@ || t == "latin2"@ || t == "latin-2"@ {
        Some(Encoding::Iso8859_2)
    } else if t == "iso8859-5"@ {
        Some(Encoding::Iso8859_5)
    } else if t == "iso8859-7"@ {
        Some(Encoding::Iso8859_7)
    } else if t == "iso8859-15"@ || t == "latin9"@ || t == "latin-9"@ {
        Some(Encoding::Iso8859_15)
    } else if t == "iso5426"@ || t == "iso-5426"@ {
        Some(Encoding::Iso5426)
    } else {
        None
    }
}

/// The format a name stands for, in any letter case.
pub fn format_from_name(s: &str) -> (r: Option<MarcFormat>)
    ensures
        r == format_named(lower_of(s@)),
{
    let l = lowercase(s);
    let t = l.as_str();
    if str_eq(t, "marc21") || str_eq(t, "marc") {
        Some(MarcFormat::Marc21)
    } else if str_eq(t, "unimarc") {
        Some(MarcFormat::Unimarc)
    } else if str_eq(t, "xml") {
        Some(MarcFormat::MarcXml)
    } else {
        None
    }
}

/// The encoding a name stands for, in any letter case.
pub fn encoding_from_name(s: &str) -> (r: Option<Encoding>)
    ensures
        r == encoding_named(lower_of(s@)),
{
    let l = lowercase(s);
    let t = l.as_str();
    if str_eq(t, "utf8") || str_eq(t, "utf-8") {
        Some(Encoding::Utf8)
    } else if str_eq(t, "marc8") || str_eq(t, "marc-8") {
        Some(Encoding::Marc8)
    } else if str_eq(t, "iso8859-1") || str_eq(t, "latin1") || str_eq(t, "latin-1") {
        Some(Encoding::Iso8859_1)
    } else if str_eq(t, "iso8859-2") || str_eq(t, "latin2") || str_eq(t, "latin-2") {
        Some(Encoding::Iso8859_2)
    } else if str_eq(t, "iso8859-5") {
        Some(Encoding::Iso8859_5)
    } else if str_eq(t, "iso8859-7") {
        Some(Encoding::Iso8859_7)
    } else if str_eq(t, "iso8859-15") || str_eq(t, "latin9") || str_eq(t, "latin-9") {
        Some(Encoding::Iso8859_15)
    } else if str_eq(t, "iso5426") || str_eq(t, "iso-5426") {
        Some(Encoding::Iso5426)
    } else {
        None
    }
}

impl<'a> From<&'a str> for MarcFormat {
    /// The format a name stands for; MARC21 for an unknown name.
    fn from(s: &'a str) -> (r: MarcFormat) {
        match format_from_name(s) {
            Some(f) => f,
            None => MarcFormat::Marc21,
        }
    }
}

impl<'a> vstd::std_specs::convert::FromSpecImpl<&'a str> for MarcFormat {
    open spec fn obeys_from_spec() -> bool {
        true
    }

    open spec fn from_spec(s: &'a str) -> MarcFormat {
        match format_named(lower_of(s@)) {
            Some(f) => f,
            None => MarcFormat::Marc21,
        }
    }
}

impl<'a> From<&'a str> for Encoding {
    /// The encoding a name stands for; UTF-8 for an unknown name.
    fn from(s: &'a str) -> (r: Encoding) {
        match encoding_from_name(s) {
            Some(e) => e,
            None => Encoding::Utf8,
        }
    }
}

impl<'a> vstd::std_specs::convert::FromSpecImpl<&'a str> for Encoding {
    open spec fn obeys_from_spec() -> bool {
        true
    }

    open spec fn from_spec(s: &'a str) -> Encoding {
        match encoding_named(lower_of(s@)) {
            Some(e) => e,
            None => Encoding::Utf8,
        }
    }
}

/// The format a buffer looks like: MARCXML when it opens with an XML
/// declaration, a `<record>` or a `<collection>`; MARC21 when it holds at
/// least a leader; none otherwise.
pub open spec fn detected_format(b: Seq<u8>) -> Option<MarcFormat> {
    if starts_with(b, "<?xml"@) || starts_with(b, "<record"@) || starts_with(b, "<collection"@) {
        Some(MarcFormat::MarcXml)
    } else if b.len() >= 24 {
        Some(MarcFormat::Marc21)
    } else {
        None
    }
}

/// Whether bytes open with the ASCII text `p`.
pub open spec fn starts_with(b: Seq<u8>, p: Seq<char>) -> bool {
    p.len() <= b.len() && forall|i: int| 0 <= i < p.len() ==> b[i] as u32 == p[i] as u32
}

fn bytes_start_with(b: &[u8], p: &str) -> (r: bool)
    ensures
        r == starts_with(b@, p@),
{
    let cs = crate::text::chars_of(p);
    if cs.len() > b.len() {
        return false;
    }
    let mut i: usize = 0;
    while i < cs.len()
        invariant
            cs@ == p@,
            cs@.len() <= b@.len(),
            0 <= i <= cs@.len(),
            forall|k: int| 0 <= k < i ==> b@[k] as u32 == cs@[k] as u32,
        decreases cs.len() - i,
    {
        let c: u32 = cs[i] as u32;
        if b[i] as u32 != c {
            return false;
        }
        i = i + 1;
    }
    true
}

/// Guesses the format of a buffer from its first bytes.
pub fn detect_format(buffer: &[u8]) -> (r: Option<MarcFormat>)
    ensures
        r == detected_format(buffer@),
{
    if bytes_start_with(buffer, "<?xml") || bytes_start_with(buffer, "<record")
        || bytes_start_with(buffer, "<collection") {
        Some(MarcFormat::MarcXml)
    } else if buffer.len() >= 24 {
        Some(MarcFormat::Marc21)
    } else {
        None
    }
}

/// The encoding a format is read and written in when none is named:
/// MARC-8 for MARC21, UTF-8 otherwise.
pub fn default_encoding(format: MarcFormat) -> (r: Encoding)
    ensures
        r == (match format {
            MarcFormat::Marc21 => Encoding::Marc8,
            _ => Encoding::Utf8,
        }),
{
    match format {
        MarcFormat::Marc21 => Encoding::Marc8,
        MarcFormat::Unimarc => Encoding::Utf8,
        MarcFormat::MarcXml => Encoding::Utf8,
    }
}

/// The characters of an optional static tag.
pub open spec fn tag_option_view(o: Option<&'static str>) -> Option<Seq<char>> {
    match o {
        Some(t) => Some(t@),
        None => None,
    }
}

} // verus!
