use crate::encoding::{convert_to_utf8, decode_text};
use crate::format::{Encoding, FormatEncoding, MarcFormat};
use crate::record::{
    all_digits, digits_value, leader_bytes_valid, leader_from_bytes, parse_decimal,
    records_model, ControlField, ControlFieldModel, DataField, DataFieldModel, Leader, Record,
    RecordModel, Subfield, SubfieldModel, FIELD_TERMINATOR, SUBFIELD_DELIMITER,
};
use crate::text::string_from_utf8;
use crate::xml_reader::{parse_marc_xml, xml_outcome};
use vstd::prelude::*;
use vstd::slice::slice_to_vec;
use vstd::utf8::{decode_utf8, valid_utf8};

verus! {

/// Why reading failed.
#[derive(Debug, Clone, PartialEq, Eq)]
pub enum ParseError {
    InvalidLeader(String),
    InvalidRecordLength(String),
    InvalidField(String),
    InvalidEncoding(String),
    UnexpectedEof,
    InvalidXml(String),
    Other(String),
}

/// The kind of a read failure, without its message.
pub enum ParseFault {
    Leader,
    RecordLength,
    Field,
    Encoding,
    Eof,
    Xml,
    Other,
}

impl ParseError {
    pub open spec fn fault(self) -> ParseFault {
        match self {
            ParseError::InvalidLeader(_) => ParseFault::Leader,
            ParseError::InvalidRecordLength(_) => ParseFault::RecordLength,
            ParseError::InvalidField(_) => ParseFault::Field,
            ParseError::InvalidEncoding(_) => ParseFault::Encoding,
            ParseError::UnexpectedEof => ParseFault::Eof,
            ParseError::InvalidXml(_) => ParseFault::Xml,
            ParseError::Other(_) => ParseFault::Other,
        }
    }

    /// The failure's description: the text it carries.
    pub fn message(&self) -> (r: String)
        ensures
            match self {
                ParseError::InvalidLeader(m) => r@ == m@,
                ParseError::InvalidRecordLength(m) => r@ == m@,
                ParseError::InvalidField(m) => r@ == m@,
                ParseError::InvalidEncoding(m) => r@ == m@,
                ParseError::UnexpectedEof => r@ == "unexpected end of data"@,
                ParseError::InvalidXml(m) => r@ == m@,
                ParseError::Other(m) => r@ == m@,
            },
    {
        match self {
            ParseError::InvalidLeader(m) => m.clone(),
            ParseError::InvalidRecordLength(m) => m.clone(),
            ParseError::InvalidField(m) => m.clone(),
            ParseError::InvalidEncoding(m) => m.clone(),
            ParseError::UnexpectedEof => "unexpected end of data".to_owned(),
            ParseError::InvalidXml(m) => m.clone(),
            ParseError::Other(m) => m.clone(),
        }
    }
}

/// The first subfield delimiter at or after `i`, or the end of `s`.
pub open spec fn next_delimiter(s: Seq<u8>, i: int) -> int
    decreases s.len() - i,
{
    if i >= s.len() {
        s.len() as int
    } else if s[i] == SUBFIELD_DELIMITER {
        i
    } else {
        next_delimiter(s, i + 1)
    }
}

/// The subfields of a stream, read from the delimiter at `p` on: each
/// delimiter opens a subfield whose first byte is its code and whose value
/// runs to the next delimiter. A delimiter with nothing after it opens none.
pub open spec fn subfields_from(s: Seq<u8>, p: int, e: Encoding) -> Result<
    Seq<SubfieldModel>,
    ParseFault,
>
    decreases s.len() - p,
    via subfields_from_decreases
{
    if p < 0 || p >= s.len() {
        Ok(Seq::empty())
    } else {
        let q = next_delimiter(s, p + 1);
        let chunk = s.subrange(p + 1, q);
        if chunk.len() == 0 {
            subfields_from(s, q, e)
        } else {
            match decode_text(chunk.drop_first(), e) {
                None => Err(ParseFault::Encoding),
                Some(v) => match subfields_from(s, q, e) {
                    Err(f) => Err(f),
                    Ok(rest) => Ok(seq![SubfieldModel { code: chunk[0] as char, value: v }] + rest),
                },
            }
        }
    }
}

#[via_fn]
proof fn subfields_from_decreases(s: Seq<u8>, p: int, e: Encoding) {
    if 0 <= p < s.len() {
        lemma_next_delimiter_bounds(s, p + 1);
    }
}

/// The next delimiter lies between `i` and the end.
pub proof fn lemma_next_delimiter_bounds(s: Seq<u8>, i: int)
    requires
        0 <= i <= s.len(),
    ensures
        i <= next_delimiter(s, i) <= s.len(),
        next_delimiter(s, i) < s.len() ==> s[next_delimiter(s, i)] == SUBFIELD_DELIMITER,
    decreases s.len() - i,
{
    if i < s.len() && s[i] != SUBFIELD_DELIMITER {
        lemma_next_delimiter_bounds(s, i + 1);
    }
}

/// The subfields of a data field's stream; bytes before the first delimiter
/// are not part of any subfield.
pub open spec fn parse_subfields(s: Seq<u8>, e: Encoding) -> Result<Seq<SubfieldModel>, ParseFault> {
    subfields_from(s, next_delimiter(s, 0), e)
}

/// Whether a three-byte tag sorts before "010", marking a control field.
pub open spec fn is_control_tag(t: Seq<u8>) -> bool {
    ||| t[0] < 0x30
    ||| (t[0] == 0x30 && t[1] < 0x31)
    ||| (t[0] == 0x30 && t[1] == 0x31 && t[2] < 0x30)
}

/// A field read from the directory.
pub enum ParsedField {
    Control(ControlFieldModel),
    Data(DataFieldModel),
}

/// The `k`-th directory entry of a record image.
pub open spec fn entry_bytes(img: Seq<u8>, k: int) -> Seq<u8> {
    img.subrange(24 + 12 * k, 24 + 12 * k + 12)
}

/// What the `k`-th directory entry holds: nothing for an empty field,
/// otherwise the field it points at.
pub open spec fn parse_entry(img: Seq<u8>, base: int, k: int, e: Encoding) -> Result<
    Option<ParsedField>,
    ParseFault,
> {
    let entry = entry_bytes(img, k);
    let tag = entry.subrange(0, 3);
    let len_digits = entry.subrange(3, 7);
    let start_digits = entry.subrange(7, 12);
    if !valid_utf8(tag) || !all_digits(len_digits) || !all_digits(start_digits) {
        Err(ParseFault::Field)
    } else {
        let len = digits_value(len_digits) as int;
        let start = digits_value(start_digits) as int;
        let area = img.subrange(base, img.len() as int);
        if start + len > area.len() {
            Err(ParseFault::Field)
        } else if len == 0 {
            Ok(None)
        } else {
            let field = area.subrange(start, start + len);
            let content = field.drop_last();
            if field.last() != FIELD_TERMINATOR {
                Err(ParseFault::Field)
            } else if is_control_tag(tag) {
                match decode_text(content, e) {
                    None => Err(ParseFault::Encoding),
                    Some(v) => Ok(
                        Some(ParsedField::Control(ControlFieldModel { tag: decode_utf8(tag), value: v })),
                    ),
                }
            } else if content.len() < 2 {
                Err(ParseFault::Field)
            } else {
                match parse_subfields(content.skip(2), e) {
                    Err(f) => Err(f),
                    Ok(sfs) => Ok(
                        Some(
                            ParsedField::Data(
                                DataFieldModel {
                                    tag: decode_utf8(tag),
                                    ind1: content[0] as char,
                                    ind2: content[1] as char,
                                    subfields: sfs,
                                },
                            ),
                        ),
                    ),
                }
            }
        }
    }
}

/// The fields of the first `k` directory entries, control and data fields apart.
pub open spec fn parse_entries(img: Seq<u8>, base: int, k: int, e: Encoding) -> Result<
    (Seq<ControlFieldModel>, Seq<DataFieldModel>),
    ParseFault,
>
    decreases k,
{
    if k <= 0 {
        Ok((Seq::empty(), Seq::empty()))
    } else {
        match parse_entries(img, base, k - 1, e) {
            Err(f) => Err(f),
            Ok((cs, ds)) => match parse_entry(img, base, k - 1, e) {
                Err(f) => Err(f),
                Ok(None) => Ok((cs, ds)),
                Ok(Some(ParsedField::Control(c))) => Ok((cs.push(c), ds)),
                Ok(Some(ParsedField::Data(d))) => Ok((cs, ds.push(d))),
            },
        }
    }
}

/// The record that an image holds, given its leader: the directory runs from
/// byte 24 to the base address and holds one 12-byte entry per field.
pub open spec fn decode_record(img: Seq<u8>, l: Leader, e: Encoding) -> Result<RecordModel, ParseFault> {
    let base = l.base_address_of_data as int;
    if base < 24 || base > img.len() {
        Err(ParseFault::Eof)
    } else {
        match parse_entries(img, base, (base - 24) / 12, e) {
            Err(f) => Err(f),
            Ok((cs, ds)) => Ok(RecordModel { leader: l, control_fields: cs, data_fields: ds }),
        }
    }
}

/// The first record of a buffer that holds at least a leader, and the length
/// of its image.
pub open spec fn first_record(data: Seq<u8>, e: Encoding) -> Result<(RecordModel, int), ParseFault> {
    if !leader_bytes_valid(data.take(24)) {
        Err(ParseFault::Leader)
    } else {
        let l = leader_from_bytes(data.take(24));
        let n = l.record_length as int;
        if n == 0 || n > data.len() {
            Err(ParseFault::RecordLength)
        } else {
            match decode_record(data.take(n), l, e) {
                Err(f) => Err(f),
                Ok(r) => Ok((r, n)),
            }
        }
    }
}

/// The records of a buffer of concatenated images, in order. Fewer than 24
/// trailing bytes end the buffer.
#[verifier::opaque]
pub open spec fn decode_records(data: Seq<u8>, e: Encoding) -> Result<Seq<RecordModel>, ParseFault>
    decreases data.len(),
{
    if data.len() < 24 {
        Ok(Seq::empty())
    } else {
        match first_record(data, e) {
            Err(f) => Err(f),
            Ok((r, n)) => if 0 < n <= data.len() {
                match decode_records(data.skip(n), e) {
                    Err(f) => Err(f),
                    Ok(rest) => Ok(seq![r] + rest),
                }
            } else {
                Err(ParseFault::RecordLength)
            },
        }
    }
}

/// `acc` followed by what `r` holds, or the failure of `r`.
pub open spec fn prepend<T>(acc: Seq<T>, r: Result<Seq<T>, ParseFault>) -> Result<Seq<T>, ParseFault> {
    match r {
        Ok(rest) => Ok(acc + rest),
        Err(f) => Err(f),
    }
}

pub open spec fn subfields_model(v: Seq<Subfield>) -> Seq<SubfieldModel> {
    v.map_values(|s: Subfield| s@)
}

/// Position of the first subfield delimiter at or after `i`.
fn find_delimiter(s: &[u8], i: usize) -> (r: usize)
    requires
        i <= s@.len(),
    ensures
        r == next_delimiter(s@, i as int),
{
    let mut j: usize = i;
    while j < s.len() && s[j] != SUBFIELD_DELIMITER
        invariant
            i <= j <= s@.len(),
            next_delimiter(s@, i as int) == next_delimiter(s@, j as int),
        decreases s.len() - j,
    {
        j = j + 1;
    }
    j
}

/// The subfields of a data field's subfield stream.
#[verifier::rlimit(60)]
fn parse_subfield_stream(s: &[u8], enc: Encoding) -> (r: Result<Vec<Subfield>, ParseError>)
    ensures
        match parse_subfields(s@, enc) {
            Ok(m) => r matches Ok(v) && subfields_model(v@) == m,
            Err(f) => r matches Err(e) && e.fault() == f,
        },
{
    let mut acc: Vec<Subfield> = Vec::new();
    let mut p = find_delimiter(s, 0);
    proof {
        lemma_next_delimiter_bounds(s@, 0);
        assert(subfields_model(acc@) + Seq::empty() =~= Seq::<SubfieldModel>::empty());
        assert(prepend(subfields_model(acc@), subfields_from(s@, p as int, enc)) == parse_subfields(s@, enc)) by {
            match subfields_from(s@, p as int, enc) {
                Ok(rest) => assert(subfields_model(acc@) + rest =~= rest),
                Err(_) => {},
            }
        }
    }
    while p < s.len()
        invariant
            0 <= p <= s@.len(),
            parse_subfields(s@, enc) == prepend(subfields_model(acc@), subfields_from(s@, p as int, enc)),
        decreases s.len() - p,
    {
        let q = find_delimiter(s, p + 1);
        proof {
            lemma_next_delimiter_bounds(s@, p + 1);
        }
        if q == p + 1 {
            p = q;
        } else {
            let code = s[p + 1] as char;
            let value = match convert_to_utf8(&s[p + 2..q], enc) {
                Ok(v) => v,
                Err(m) => {
                    proof {
                        assert(s@.subrange(p + 1, q as int).drop_first() =~= s@.subrange(p + 2, q as int));
                    }
                    return Err(ParseError::InvalidEncoding(m));
                },
            };
            let ghost before = subfields_model(acc@);
            let sf = Subfield { code, value };
            acc.push(sf);
            proof {
                assert(s@.subrange(p + 1, q as int).drop_first() =~= s@.subrange(p + 2, q as int));
                assert(subfields_model(acc@) =~= before.push(sf@));
                match subfields_from(s@, q as int, enc) {
                    Ok(rest) => {
                        assert(before + (seq![sf@] + rest) =~= subfields_model(acc@) + rest);
                    },
                    Err(_) => {},
                }
            }
            p = q;
        }
    }
    proof {
        assert(subfields_model(acc@) + Seq::empty() =~= subfields_model(acc@));
    }
    Ok(acc)
}

/// A field read from the directory, in executable form.
enum EntryField {
    Empty,
    Control(ControlField),
    Data(DataField),
}

spec fn entry_matches(x: EntryField, m: Option<ParsedField>) -> bool {
    match (x, m) {
        (EntryField::Empty, None) => true,
        (EntryField::Control(c), Some(ParsedField::Control(cm))) => c@ == cm,
        (EntryField::Data(d), Some(ParsedField::Data(dm))) => d@ == dm,
        _ => false,
    }
}

/// Reads the `k`-th directory entry and the field it points at.
#[verifier::rlimit(60)]
fn parse_field_entry(img: &[u8], base: usize, k: usize, enc: Encoding) -> (r: Result<
    EntryField,
    ParseError,
>)
    requires
        24 <= base <= img@.len(),
        k < (base - 24) / 12,
    ensures
        match parse_entry(img@, base as int, k as int, enc) {
            Ok(m) => r matches Ok(x) && entry_matches(x, m),
            Err(f) => r matches Err(e) && e.fault() == f,
        },
{
    let off = 24 + 12 * k;
    let ghost entry = entry_bytes(img@, k as int);
    proof {
        assert(img@.subrange(off as int, off + 3) =~= entry.subrange(0, 3));
        assert(img@.subrange(off + 3, off + 7) =~= entry.subrange(3, 7));
        assert(img@.subrange(off + 7, off + 12) =~= entry.subrange(7, 12));
    }
    let tag = match string_from_utf8(slice_to_vec(&img[off..off + 3])) {
        Some(t) => t,
        None => {
            return Err(ParseError::InvalidField("tag is not UTF-8".to_owned()));
        },
    };
    let len = match parse_decimal(&img[off + 3..off + 7], 0xFFFF_FFFF) {
        Some(v) => v as usize,
        None => {
            proof {
                if all_digits(entry.subrange(3, 7)) {
                    crate::record::lemma_digits_value_bound(entry.subrange(3, 7));
                    reveal_with_fuel(crate::record::pow10, 5);
                }
            }
            return Err(ParseError::InvalidField("field length is not a number".to_owned()));
        },
    };
    let start = match parse_decimal(&img[off + 7..off + 12], 0xFFFF_FFFF) {
        Some(v) => v as usize,
        None => {
            proof {
                if all_digits(entry.subrange(7, 12)) {
                    crate::record::lemma_digits_value_bound(entry.subrange(7, 12));
                    reveal_with_fuel(crate::record::pow10, 6);
                }
            }
            return Err(ParseError::InvalidField("field start is not a number".to_owned()));
        },
    };
    let area_len = img.len() - base;
    if start > area_len || len > area_len - start {
        return Err(ParseError::InvalidField("field extends beyond the data area".to_owned()));
    }
    if len == 0 {
        return Ok(EntryField::Empty);
    }
    let first = base + start;
    let last = first + len - 1;
    proof {
        let area = img@.subrange(base as int, img@.len() as int);
        assert(area.subrange(start as int, start + len) =~= img@.subrange(first as int, last + 1));
        assert(img@.subrange(first as int, last + 1).drop_last() =~= img@.subrange(
            first as int,
            last as int,
        ));
    }
    if img[last] != FIELD_TERMINATOR {
        return Err(ParseError::InvalidField("field does not end with a terminator".to_owned()));
    }
    let tb = &img[off..off + 3];
    if tb[0] < 0x30 || (tb[0] == 0x30 && tb[1] < 0x31) || (tb[0] == 0x30 && tb[1] == 0x31 && tb[2]
        < 0x30) {
        let value = match convert_to_utf8(&img[first..last], enc) {
            Ok(v) => v,
            Err(m) => {
                return Err(ParseError::InvalidEncoding(m));
            },
        };
        Ok(EntryField::Control(ControlField { tag, value }))
    } else {
        if len < 3 {
            return Err(ParseError::InvalidField("data field lacks indicators".to_owned()));
        }
        let ind1 = img[first] as char;
        let ind2 = img[first + 1] as char;
        proof {
            assert(img@.subrange(first as int, last as int).skip(2) =~= img@.subrange(
                first + 2,
                last as int,
            ));
        }
        let subfields = parse_subfield_stream(&img[first + 2..last], enc)?;
        Ok(EntryField::Data(DataField { tag, ind1, ind2, subfields }))
    }
}

/// Reads one record image whose leader has already been read.
#[verifier::rlimit(60)]
fn parse_single_marc21_record(
    data: &[u8],
    leader: &Leader,
    format_encoding: FormatEncoding,
) -> (r: Result<Record, ParseError>)
    ensures
        match decode_record(data@, *leader, format_encoding.encoding) {
            Ok(m) => r matches Ok(rec) && rec@ == m,
            Err(f) => r matches Err(e) && e.fault() == f,
        },
{
    let enc = format_encoding.encoding;
    let base = leader.base_address_of_data as usize;
    if base < 24 || data.len() < base {
        return Err(ParseError::UnexpectedEof);
    }
    let n = (base - 24) / 12;
    let mut control_fields: Vec<ControlField> = Vec::new();
    let mut data_fields: Vec<DataField> = Vec::new();
    let mut k: usize = 0;
    proof {
        assert(control_fields@.map_values(|f: ControlField| f@) =~= Seq::<ControlFieldModel>::empty());
        assert(data_fields@.map_values(|f: DataField| f@) =~= Seq::<DataFieldModel>::empty());
    }
    while k < n
        invariant
            enc == format_encoding.encoding,
            24 <= base <= data@.len(),
            base == leader.base_address_of_data as usize,
            n == (base - 24) / 12,
            0 <= k <= n,
            parse_entries(data@, base as int, k as int, enc) == Ok::<
                (Seq<ControlFieldModel>, Seq<DataFieldModel>),
                ParseFault,
            >(
                (
                    control_fields@.map_values(|f: ControlField| f@),
                    data_fields@.map_values(|f: DataField| f@),
                ),
            ),
        decreases n - k,
    {
        let ghost cs = control_fields@.map_values(|f: ControlField| f@);
        let ghost ds = data_fields@.map_values(|f: DataField| f@);
        match parse_field_entry(data, base, k, enc) {
            Err(e) => {
                proof {
                    assert(parse_entry(data@, base as int, k as int, enc) == Err::<
                        Option<ParsedField>,
                        ParseFault,
                    >(e.fault()));
                    assert(parse_entries(data@, base as int, k + 1, enc) == Err::<
                        (Seq<ControlFieldModel>, Seq<DataFieldModel>),
                        ParseFault,
                    >(e.fault()));
                    lemma_parse_entries_stuck(data@, base as int, k as int + 1, n as int, enc);
                    assert(parse_entries(data@, base as int, n as int, enc) == Err::<
                        (Seq<ControlFieldModel>, Seq<DataFieldModel>),
                        ParseFault,
                    >(e.fault()));
                    assert(decode_record(data@, *leader, enc) == Err::<RecordModel, ParseFault>(
                        e.fault(),
                    ));
                }
                return Err(e);
            },
            Ok(EntryField::Empty) => {},
            Ok(EntryField::Control(c)) => {
                control_fields.push(c);
                proof {
                    assert(control_fields@.map_values(|f: ControlField| f@) =~= cs.push(c@));
                }
            },
            Ok(EntryField::Data(d)) => {
                data_fields.push(d);
                proof {
                    assert(data_fields@.map_values(|f: DataField| f@) =~= ds.push(d@));
                }
            },
        }
        k = k + 1;
    }
    Ok(Record { leader: *leader, control_fields, data_fields })
}

proof fn lemma_parse_entries_stuck(img: Seq<u8>, base: int, k: int, n: int, e: Encoding)
    requires
        0 <= k <= n,
        parse_entries(img, base, k, e) is Err,
    ensures
        parse_entries(img, base, n, e) == parse_entries(img, base, k, e),
    decreases n - k,
{
    if k < n {
        lemma_parse_entries_stuck(img, base, k + 1, n, e);
    }
}

/// Reads the concatenated ISO 2709 records of a buffer, in order; fewer than
/// 24 trailing bytes are ignored. The first failure ends the reading.
#[verifier::rlimit(60)]
pub fn parse_marc21_binary(data: &[u8], format_encoding: FormatEncoding) -> (r: Result<
    Vec<Record>,
    ParseError,
>)
    ensures
        match decode_records(data@, format_encoding.encoding) {
            Ok(m) => r matches Ok(v) && records_model(v@) == m,
            Err(f) => r matches Err(e) && e.fault() == f,
        },
{
    let enc = format_encoding.encoding;
    let mut records: Vec<Record> = Vec::new();
    let mut offset: usize = 0;
    proof {
        assert(data@.skip(0) =~= data@);
        match decode_records(data@.skip(0), enc) {
            Ok(rest) => assert(records_model(records@) + rest =~= rest),
            Err(_) => {},
        }
    }
    while data.len() - offset >= 24
        invariant
            enc == format_encoding.encoding,
            0 <= offset <= data@.len(),
            decode_records(data@, enc) == prepend(
                records_model(records@),
                decode_records(data@.skip(offset as int), enc),
            ),
        decreases data.len() - offset,
    {
        proof {
            assert(data@.subrange(offset as int, data@.len() as int) =~= data@.skip(offset as int));
        }
        let (record, record_length) = match read_record(&data[offset..data.len()], format_encoding) {
            Ok(x) => x,
            Err(e) => {
                proof {
                    lemma_decode_records_fails(data@.skip(offset as int), enc);
                }
                return Err(e);
            },
        };
        let ghost before = records_model(records@);
        let ghost rm = record@;
        records.push(record);
        proof {
            assert(data@.skip(offset as int).skip(record_length as int) =~= data@.skip(
                offset + record_length,
            ));
            lemma_decode_records_step(data@.skip(offset as int), enc, rm, record_length as int);
            assert(records_model(records@) =~= before.push(rm));
            match decode_records(data@.skip(offset + record_length), enc) {
                Ok(tail) => assert(before + (seq![rm] + tail) =~= records_model(records@) + tail),
                Err(_) => {},
            }
        }
        offset = offset + record_length;
    }
    proof {
        lemma_decode_records_short(data@.skip(offset as int), enc);
        assert(records_model(records@) + Seq::empty() =~= records_model(records@));
    }
    Ok(records)
}

pub proof fn lemma_decode_records_step(data: Seq<u8>, e: Encoding, r: RecordModel, n: int)
    requires
        data.len() >= 24,
        first_record(data, e) == Ok::<(RecordModel, int), ParseFault>((r, n)),
        0 < n <= data.len(),
    ensures
        decode_records(data, e) == prepend(seq![r], decode_records(data.skip(n), e)),
{
    reveal(decode_records);
}

proof fn lemma_decode_records_short(data: Seq<u8>, e: Encoding)
    requires
        data.len() < 24,
    ensures
        decode_records(data, e) == Ok::<Seq<RecordModel>, ParseFault>(Seq::empty()),
{
    reveal(decode_records);
}

proof fn lemma_decode_records_fails(data: Seq<u8>, e: Encoding)
    requires
        data.len() >= 24,
        first_record(data, e) is Err,
    ensures
        decode_records(data, e) == Err::<Seq<RecordModel>, ParseFault>(first_record(data, e)->Err_0),
{
    reveal(decode_records);
}

/// Reads the first record of a buffer that holds at least a leader.
fn read_record(data: &[u8], format_encoding: FormatEncoding) -> (r: Result<
    (Record, usize),
    ParseError,
>)
    requires
        data@.len() >= 24,
    ensures
        match first_record(data@, format_encoding.encoding) {
            Ok((m, n)) => r matches Ok((rec, len)) && rec@ == m && len == n && 0 < n <= data@.len(),
            Err(f) => r matches Err(e) && e.fault() == f,
        },
{
    proof {
        assert(data@.take(24) =~= data@.subrange(0, 24));
    }
    let leader = match Leader::from_bytes(&data[0..24]) {
        Ok(l) => l,
        Err(m) => {
            return Err(ParseError::InvalidLeader(m));
        },
    };
    let record_length = leader.record_length as usize;
    if record_length == 0 || record_length > data.len() {
        return Err(ParseError::InvalidRecordLength("record length exceeds the data".to_owned()));
    }
    proof {
        assert(data@.take(record_length as int) =~= data@.subrange(0, record_length as int));
    }
    let record = parse_single_marc21_record(&data[0..record_length], &leader, format_encoding)?;
    Ok((record, record_length))
}

/// UNIMARC shares the ISO 2709 envelope with MARC21.
pub fn parse_unimarc_binary(data: &[u8], format_encoding: FormatEncoding) -> (r: Result<
    Vec<Record>,
    ParseError,
>)
    ensures
        match decode_records(data@, format_encoding.encoding) {
            Ok(m) => r matches Ok(v) && records_model(v@) == m,
            Err(f) => r matches Err(e) && e.fault() == f,
        },
{
    parse_marc21_binary(data, format_encoding)
}

/// The records that `data` holds in the given dialect, or the kind of failure:
/// ISO 2709 for MARC21 and UNIMARC, MARCXML read as UTF-8 text otherwise.
pub open spec fn decode_outcome(data: Seq<u8>, format_encoding: FormatEncoding) -> Result<
    Seq<RecordModel>,
    ParseFault,
> {
    match format_encoding.format {
        MarcFormat::MarcXml => if valid_utf8(data) {
            xml_outcome(decode_utf8(data))
        } else {
            Err(ParseFault::Xml)
        },
        _ => decode_records(data, format_encoding.encoding),
    }
}

/// Reads the records of a buffer in the given dialect: MARC21 and UNIMARC
/// through the ISO 2709 reader, MARCXML through the XML reader.
pub fn parse(data: &[u8], format_encoding: FormatEncoding) -> (r: Result<Vec<Record>, ParseError>)
    ensures
        match decode_outcome(data@, format_encoding) {
            Ok(m) => r matches Ok(v) && records_model(v@) == m,
            Err(f) => r matches Err(e) && e.fault() == f,
        },
{
    match format_encoding.format {
        MarcFormat::Marc21 => parse_marc21_binary(data, format_encoding),
        MarcFormat::Unimarc => parse_unimarc_binary(data, format_encoding),
        MarcFormat::MarcXml => parse_marc_xml(data, format_encoding),
    }
}

} // verus!
