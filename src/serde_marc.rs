//! Convenience forms over `parse` and `write`: one record or many, bytes,
//! text, or an output buffer.
use crate::format::FormatEncoding;
use crate::parser::{decode_outcome, parse, ParseError, ParseFault};
use crate::record::{records_model, Record};
use crate::text::string_from_utf8;
use crate::writer::{encode_output, write_one, WriteError, WriteFault};
use vstd::prelude::*;
use vstd::string::StringSliceAdditionalSpecFns;
use vstd::utf8::{decode_utf8, valid_utf8};

verus! {

/// Reads the first record of a buffer; a buffer with none is an error.
pub fn from_slice(data: &[u8], format_encoding: FormatEncoding) -> (r: Result<Record, ParseError>)
    ensures
        match decode_outcome(data@, format_encoding) {
            Ok(m) => if m.len() > 0 {
                r matches Ok(rec) && rec@ == m[0]
            } else {
                r matches Err(e) && e.fault() == ParseFault::Other
            },
            Err(f) => r matches Err(e) && e.fault() == f,
        },
{
    let mut records = parse(data, format_encoding)?;
    if records.len() == 0 {
        return Err(ParseError::Other("no record found in data".to_owned()));
    }
    let ghost all = records_model(records@);
    let first = records.remove(0);
    proof {
        assert(all[0] == first@);
    }
    Ok(first)
}

/// Reads all records of a buffer.
pub fn from_slice_many(data: &[u8], format_encoding: FormatEncoding) -> (r: Result<
    Vec<Record>,
    ParseError,
>)
    ensures
        match decode_outcome(data@, format_encoding) {
            Ok(m) => r matches Ok(v) && records_model(v@) == m,
            Err(f) => r matches Err(e) && e.fault() == f,
        },
{
    parse(data, format_encoding)
}

/// Reads the first record of a text, as its UTF-8 bytes.
pub fn from_str(data: &str, format_encoding: FormatEncoding) -> (r: Result<Record, ParseError>)
    ensures
        match decode_outcome(data.spec_bytes(), format_encoding) {
            Ok(m) => if m.len() > 0 {
                r matches Ok(rec) && rec@ == m[0]
            } else {
                r matches Err(e) && e.fault() == ParseFault::Other
            },
            Err(f) => r matches Err(e) && e.fault() == f,
        },
{
    from_slice(data.as_bytes(), format_encoding)
}

/// Reads all records of a text, as its UTF-8 bytes.
pub fn from_str_many(data: &str, format_encoding: FormatEncoding) -> (r: Result<
    Vec<Record>,
    ParseError,
>)
    ensures
        match decode_outcome(data.spec_bytes(), format_encoding) {
            Ok(m) => r matches Ok(v) && records_model(v@) == m,
            Err(f) => r matches Err(e) && e.fault() == f,
        },
{
    from_slice_many(data.as_bytes(), format_encoding)
}

/// Appends one record to a buffer; nothing is appended on failure.
pub fn to_writer(record: &Record, format_encoding: FormatEncoding, writer: &mut Vec<u8>) -> (r:
    Result<(), WriteError>)
    ensures
        match encode_output(seq![record@], format_encoding) {
            Ok(b) => r.is_ok() && final(writer)@ == old(writer)@ + b,
            Err(f) => r matches Err(e) && e.fault() == f && final(writer)@ == old(writer)@,
        },
{
    write_one(record, format_encoding, writer)
}

/// Appends records to a buffer; nothing is appended on failure.
pub fn to_writer_many(records: &[Record], format_encoding: FormatEncoding, writer: &mut Vec<u8>) -> (r:
    Result<(), WriteError>)
    ensures
        match encode_output(records_model(records@), format_encoding) {
            Ok(b) => r.is_ok() && final(writer)@ == old(writer)@ + b,
            Err(f) => r matches Err(e) && e.fault() == f && final(writer)@ == old(writer)@,
        },
{
    crate::writer::write(records, format_encoding, writer)
}

/// One record as bytes.
pub fn to_vec(record: &Record, format_encoding: FormatEncoding) -> (r: Result<Vec<u8>, WriteError>)
    ensures
        match encode_output(seq![record@], format_encoding) {
            Ok(b) => r matches Ok(v) && v@ == b,
            Err(f) => r matches Err(e) && e.fault() == f,
        },
{
    let mut buffer: Vec<u8> = Vec::new();
    to_writer(record, format_encoding, &mut buffer)?;
    proof {
        assert(buffer@ =~= Seq::<u8>::empty() + encode_output(seq![record@], format_encoding)->Ok_0);
    }
    Ok(buffer)
}

/// Records as bytes.
pub fn to_vec_many(records: &[Record], format_encoding: FormatEncoding) -> (r: Result<
    Vec<u8>,
    WriteError,
>)
    ensures
        match encode_output(records_model(records@), format_encoding) {
            Ok(b) => r matches Ok(v) && v@ == b,
            Err(f) => r matches Err(e) && e.fault() == f,
        },
{
    let mut buffer: Vec<u8> = Vec::new();
    to_writer_many(records, format_encoding, &mut buffer)?;
    proof {
        assert(buffer@ =~= Seq::<u8>::empty() + encode_output(records_model(records@), format_encoding)->Ok_0);
    }
    Ok(buffer)
}

/// The text that bytes spell, or an error when they are not UTF-8.
pub open spec fn text_outcome(r: Result<Seq<u8>, WriteFault>) -> Result<Seq<char>, WriteFault> {
    match r {
        Ok(b) => if valid_utf8(b) {
            Ok(decode_utf8(b))
        } else {
            Err(WriteFault::Other)
        },
        Err(f) => Err(f),
    }
}

fn bytes_to_text(bytes: Vec<u8>) -> (r: Result<String, WriteError>)
    ensures
        valid_utf8(bytes@) ==> (r matches Ok(s) && s@ == decode_utf8(bytes@)),
        !valid_utf8(bytes@) ==> (r matches Err(e) && e.fault() == WriteFault::Other),
{
    match string_from_utf8(bytes) {
        Some(s) => Ok(s),
        None => Err(WriteError::Other("output is not UTF-8".to_owned())),
    }
}

/// One record as text (meant for MARCXML).
pub fn to_string(record: &Record, format_encoding: FormatEncoding) -> (r: Result<String, WriteError>)
    ensures
        match text_outcome(encode_output(seq![record@], format_encoding)) {
            Ok(t) => r matches Ok(s) && s@ == t,
            Err(f) => r matches Err(e) && e.fault() == f,
        },
{
    let bytes = to_vec(record, format_encoding)?;
    bytes_to_text(bytes)
}

/// Records as text (meant for MARCXML).
pub fn to_string_many(records: &[Record], format_encoding: FormatEncoding) -> (r: Result<
    String,
    WriteError,
>)
    ensures
        match text_outcome(encode_output(records_model(records@), format_encoding)) {
            Ok(t) => r matches Ok(s) && s@ == t,
            Err(f) => r matches Err(e) && e.fault() == f,
        },
{
    let bytes = to_vec_many(records, format_encoding)?;
    bytes_to_text(bytes)
}

/// One record as bytes; the same as `to_vec`.
pub fn to_record(record: &Record, format_encoding: FormatEncoding) -> (r: Result<
    Vec<u8>,
    WriteError,
>)
    ensures
        match encode_output(seq![record@], format_encoding) {
            Ok(b) => r matches Ok(v) && v@ == b,
            Err(f) => r matches Err(e) && e.fault() == f,
        },
{
    to_vec(record, format_encoding)
}

/// Records as bytes; the same as `to_vec_many`.
pub fn to_records(records: &[Record], format_encoding: FormatEncoding) -> (r: Result<
    Vec<u8>,
    WriteError,
>)
    ensures
        match encode_output(records_model(records@), format_encoding) {
            Ok(b) => r matches Ok(v) && v@ == b,
            Err(f) => r matches Err(e) && e.fault() == f,
        },
{
    to_vec_many(records, format_encoding)
}

} // verus!
