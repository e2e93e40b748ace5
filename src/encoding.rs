use crate::format::Encoding;
use crate::text::{chars_of, push_char};
use vstd::prelude::*;
use vstd::string::StringSliceAdditionalSpecFns;
use vstd::utf8::{decode_utf8, encode_utf8, valid_utf8};

verus! {

/// What encoding_rs yields when it decodes `bytes` with the encoding that
/// `label` names: `None` for an unknown label or malformed input.
pub uninterp spec fn decoded_with(label: Seq<char>, bytes: Seq<u8>) -> Option<Seq<char>>;

/// What encoding_rs yields when it encodes `text` with the encoding that
/// `label` names: `None` for an unknown label or an unmappable character.
pub uninterp spec fn encoded_with(label: Seq<char>, text: Seq<char>) -> Option<Seq<u8>>;

pub open spec fn string_option_view(r: Option<String>) -> Option<Seq<char>> {
    match r {
        Some(s) => Some(s@),
        None => None,
    }
}

pub open spec fn bytes_option_view(r: Option<Vec<u8>>) -> Option<Seq<u8>> {
    match r {
        Some(b) => Some(b@),
        None => None,
    }
}

/// Relies on encoding_rs: `Encoding::for_label` picks the encoding that `label`
/// names and `Encoding::decode_without_bom_handling` decodes with it, flagging
/// malformed input. On UTF-8 it is the WHATWG decoder: valid input decodes as itself.
#[verifier::external_body]
fn decode_with_label(label: &str, bytes: &[u8]) -> (r: Option<String>)
    ensures
        string_option_view(r) == decoded_with(label@, bytes@),
        label@ == "utf-8"@ ==> (r.is_some() <==> valid_utf8(bytes@)),
        label@ == "utf-8"@ ==> (r matches Some(s) ==> s@ == decode_utf8(bytes@)),
{
    let enc = encoding_rs::Encoding::for_label(label.as_bytes())?;
    let (text, had_errors) = enc.decode_without_bom_handling(bytes);
    if had_errors {
        None
    } else {
        Some(text.into_owned())
    }
}

/// Relies on encoding_rs: `Encoding::for_label` picks the encoding that `label`
/// names and `Encoding::encode` encodes with it, flagging unmappable characters.
/// On UTF-8 the result is the text's own bytes.
#[verifier::external_body]
fn encode_with_label(label: &str, text: &str) -> (r: Option<Vec<u8>>)
    ensures
        bytes_option_view(r) == encoded_with(label@, text@),
        label@ == "utf-8"@ ==> bytes_option_view(r) == Some(encode_utf8(text@)),
{
    let enc = encoding_rs::Encoding::for_label(label.as_bytes())?;
    let (bytes, _, had_errors) = enc.encode(text);
    if had_errors {
        None
    } else {
        Some(bytes.into_owned())
    }
}

/// The label under which encoding_rs serves the encodings it is asked for by
/// label. Latin-1 (and MARC-8, read as Latin-1) is not served by label: the
/// WHATWG label "iso-8859-1" stands for windows-1252.
pub open spec fn label_of(e: Encoding) -> Seq<char> {
    match e {
        Encoding::Iso8859_2 => "iso-8859-2"@,
        Encoding::Iso8859_5 => "iso-8859-5"@,
        Encoding::Iso8859_7 => "iso-8859-7"@,
        Encoding::Iso8859_15 => "iso-8859-15"@,
        _ => "utf-8"@,
    }
}

fn label(e: Encoding) -> (r: &'static str)
    ensures
        r@ == label_of(e),
{
    match e {
        Encoding::Iso8859_2 => "iso-8859-2",
        Encoding::Iso8859_5 => "iso-8859-5",
        Encoding::Iso8859_7 => "iso-8859-7",
        Encoding::Iso8859_15 => "iso-8859-15",
        _ => "utf-8",
    }
}

/// Latin-1 text of bytes: each byte is the code point of its value.
pub open spec fn latin1_text(b: Seq<u8>) -> Seq<char> {
    Seq::new(b.len(), |i: int| b[i] as char)
}

/// Whether every character of a text is in Latin-1.
pub open spec fn in_latin1(t: Seq<char>) -> bool {
    forall|i: int| 0 <= i < t.len() ==> (#[trigger] t[i] as u32) <= 0xFF
}

/// Latin-1 bytes of a text, when every character has one.
pub open spec fn latin1_bytes(t: Seq<char>) -> Option<Seq<u8>> {
    if in_latin1(t) {
        Some(Seq::new(t.len(), |i: int| (t[i] as u32) as u8))
    } else {
        None
    }
}

/// Relies on encoding_rs's `mem::decode_latin1`: each byte becomes the code
/// point of its value.
#[verifier::external_body]
fn decode_latin1(b: &[u8]) -> (r: String)
    ensures
        r@ == latin1_text(b@),
{
    encoding_rs::mem::decode_latin1(b).into_owned()
}

/// Relies on encoding_rs's `mem::encode_latin1_lossy`: for a text of code
/// points up to U+00FF, each becomes the byte of its value.
#[verifier::external_body]
fn encode_latin1(t: &str) -> (r: Vec<u8>)
    requires
        in_latin1(t@),
    ensures
        Some(r@) == latin1_bytes(t@),
{
    encoding_rs::mem::encode_latin1_lossy(t).into_owned()
}

/// How ISO 5426 reads one byte: printable ASCII and tab, line feed and
/// carriage return as themselves, other control bytes and DEL dropped, the
/// range 0x80..=0x9F, which this library has no table for, as U+FFFD, and the
/// range 0xA0..=0xFF as Latin-1.
pub open spec fn iso5426_byte_text(b: u8) -> Seq<char> {
    if b < 0x20 && b != 0x09 && b != 0x0A && b != 0x0D || b == 0x7F {
        Seq::empty()
    } else if 0x80 <= b <= 0x9F {
        seq!['\u{FFFD}']
    } else {
        seq![b as char]
    }
}

/// ISO 5426 text of a byte run, byte by byte.
pub open spec fn iso5426_decoded(bytes: Seq<u8>) -> Seq<char>
    decreases bytes.len(),
{
    if bytes.len() == 0 {
        Seq::empty()
    } else {
        iso5426_decoded(bytes.drop_last()) + iso5426_byte_text(bytes.last())
    }
}

/// How ISO 5426 writes one character: control characters other than tab,
/// line feed and carriage return dropped, printable ASCII, tab, line feed,
/// carriage return, DEL and the range U+00A0..=U+00FF as their byte; the range
/// U+0080..=U+009F and anything above U+00FF have no byte.
pub open spec fn iso5426_char_bytes(c: char) -> Option<Seq<u8>> {
    if (c as u32) < 0x20 && c != '\t' && c != '\n' && c != '\r' {
        Some(Seq::empty())
    } else if (c as u32) <= 0x7F || 0xA0 <= (c as u32) <= 0xFF {
        Some(seq![(c as u32) as u8])
    } else {
        None
    }
}

/// ISO 5426 bytes of a text, character by character.
pub open spec fn iso5426_encoded(text: Seq<char>) -> Option<Seq<u8>>
    decreases text.len(),
{
    if text.len() == 0 {
        Some(Seq::empty())
    } else {
        match (iso5426_encoded(text.drop_last()), iso5426_char_bytes(text.last())) {
            (Some(a), Some(b)) => Some(a + b),
            _ => None,
        }
    }
}

/// The text that a field payload stands for under an encoding: UTF-8 read
/// as itself, Latin-1 and MARC-8 byte for code point, ISO 5426 as above, the
/// other ISO 8859 parts as encoding_rs reads them.
pub open spec fn decode_text(bytes: Seq<u8>, e: Encoding) -> Option<Seq<char>> {
    match e {
        Encoding::Utf8 => if valid_utf8(bytes) {
            Some(decode_utf8(bytes))
        } else {
            None
        },
        Encoding::Marc8 => Some(latin1_text(bytes)),
        Encoding::Iso8859_1 => Some(latin1_text(bytes)),
        Encoding::Iso5426 => Some(iso5426_decoded(bytes)),
        _ => decoded_with(label_of(e), bytes),
    }
}

/// The payload bytes that stand for a text under an encoding: UTF-8 as the
/// text's own bytes, Latin-1 and MARC-8 code point for byte, ISO 5426 as
/// above, the other ISO 8859 parts as encoding_rs writes them.
pub open spec fn encode_text(text: Seq<char>, e: Encoding) -> Option<Seq<u8>> {
    match e {
        Encoding::Utf8 => Some(encode_utf8(text)),
        Encoding::Marc8 => latin1_bytes(text),
        Encoding::Iso8859_1 => latin1_bytes(text),
        Encoding::Iso5426 => iso5426_encoded(text),
        _ => encoded_with(label_of(e), text),
    }
}

/// Decodes a field payload into text.
pub fn convert_to_utf8(data: &[u8], encoding: Encoding) -> (r: Result<String, String>)
    ensures
        r.is_ok() <==> decode_text(data@, encoding) is Some,
        r matches Ok(s) ==> decode_text(data@, encoding) == Some(s@),
        encoding == Encoding::Utf8 ==> (r.is_ok() <==> valid_utf8(data@)),
        encoding == Encoding::Utf8 ==> (r matches Ok(s) ==> s@ == decode_utf8(data@)),
{
    match encoding {
        Encoding::Iso5426 => Ok(decode_iso5426(data)),
        Encoding::Marc8 | Encoding::Iso8859_1 => Ok(decode_latin1(data)),
        _ => match decode_with_label(label(encoding), data) {
            Some(s) => Ok(s),
            None => Err("encoding conversion had errors".to_owned()),
        },
    }
}

/// Encodes text into field payload bytes.
pub fn convert_from_encoding(text: &str, encoding: Encoding) -> (r: Result<Vec<u8>, String>)
    ensures
        r.is_ok() <==> encode_text(text@, encoding) is Some,
        r matches Ok(b) ==> encode_text(text@, encoding) == Some(b@),
        encoding == Encoding::Utf8 ==> (r matches Ok(b) && b@ == encode_utf8(text@)),
{
    match encoding {
        Encoding::Iso5426 => encode_iso5426(text),
        Encoding::Marc8 | Encoding::Iso8859_1 => {
            if all_latin1(text) {
                Ok(encode_latin1(text))
            } else {
                Err("character outside Latin-1".to_owned())
            }
        },
        _ => match encode_with_label(label(encoding), text) {
            Some(b) => Ok(b),
            None => Err("encoding conversion had errors".to_owned()),
        },
    }
}

/// Whether every character of a text is in Latin-1.
fn all_latin1(text: &str) -> (r: bool)
    ensures
        r == in_latin1(text@),
{
    let chars = chars_of(text);
    let mut i: usize = 0;
    while i < chars.len()
        invariant
            chars@ == text@,
            0 <= i <= chars@.len(),
            forall|k: int| 0 <= k < i ==> (#[trigger] chars@[k] as u32) <= 0xFF,
        decreases chars.len() - i,
    {
        if chars[i] as u32 > 0xFF {
            return false;
        }
        i = i + 1;
    }
    true
}

fn decode_iso5426(data: &[u8]) -> (r: String)
    ensures
        r@ == iso5426_decoded(data@),
{
    let mut result = String::new();
    let mut i: usize = 0;
    while i < data.len()
        invariant
            0 <= i <= data@.len(),
            iso5426_decoded(data@.subrange(0, i as int)) == result@,
        decreases data.len() - i,
    {
        let byte = data[i];
        proof {
            assert(data@.subrange(0, i + 1).drop_last() =~= data@.subrange(0, i as int));
        }
        if byte < 0x20 && byte != 0x09 && byte != 0x0A && byte != 0x0D || byte == 0x7F {
            proof {
                assert(result@ + Seq::<char>::empty() =~= result@);
            }
        } else if 0x80 <= byte && byte <= 0x9F {
            push_char(&mut result, '\u{FFFD}');
        } else {
            push_char(&mut result, byte as char);
        }
        i = i + 1;
    }
    proof {
        assert(data@.subrange(0, i as int) =~= data@);
    }
    result
}

/// Once a prefix fails to encode, the whole text fails.
proof fn lemma_iso5426_encoded_stuck(text: Seq<char>, k: int)
    requires
        0 <= k <= text.len(),
        iso5426_encoded(text.subrange(0, k)) is None,
    ensures
        iso5426_encoded(text) is None,
    decreases text.len() - k,
{
    if k == text.len() {
        assert(text.subrange(0, k) =~= text);
    } else {
        assert(text.subrange(0, k + 1).drop_last() =~= text.subrange(0, k));
        lemma_iso5426_encoded_stuck(text, k + 1);
    }
}

fn encode_iso5426(text: &str) -> (r: Result<Vec<u8>, String>)
    ensures
        r.is_ok() <==> iso5426_encoded(text@) is Some,
        r matches Ok(b) ==> iso5426_encoded(text@) == Some(b@),
{
    let chars = chars_of(text);
    let mut result: Vec<u8> = Vec::new();
    let mut i: usize = 0;
    while i < chars.len()
        invariant
            chars@ == text@,
            0 <= i <= chars@.len(),
            iso5426_encoded(text@.subrange(0, i as int)) == Some(result@),
        decreases chars.len() - i,
    {
        let ch = chars[i];
        let code_point: u32 = ch as u32;
        proof {
            assert(text@.subrange(0, i + 1).drop_last() =~= text@.subrange(0, i as int));
        }
        if code_point < 0x20 && ch != '\t' && ch != '\n' && ch != '\r' {
            proof {
                assert(result@ + Seq::<u8>::empty() =~= result@);
            }
        } else if code_point <= 0x7F || (0xA0 <= code_point && code_point <= 0xFF) {
            let ghost before = result@;
            result.push(code_point as u8);
            proof {
                assert(result@ =~= before + seq![(ch as u32) as u8]);
            }
        } else {
            proof {
                lemma_iso5426_encoded_stuck(text@, i as int + 1);
            }
            return Err("character has no ISO 5426 byte".to_owned());
        }
        i = i + 1;
    }
    proof {
        assert(text@.subrange(0, i as int) =~= text@);
    }
    Ok(result)
}

/// Under UTF-8 the bytes that `convert_from_encoding` writes for a text are
/// valid, and `convert_to_utf8` reads them back as that same text.
pub proof fn lemma_utf8_identity(s: Seq<char>)
    ensures
        valid_utf8(encode_utf8(s)),
        decode_utf8(encode_utf8(s)) == s,
{
    vstd::utf8::encode_utf8_valid_utf8(s);
    vstd::utf8::encode_utf8_decode_utf8(s);
}

} // verus!
