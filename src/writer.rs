use crate::encoding::{convert_from_encoding, encode_text};
use crate::text::chars_of;
use crate::xml_writer::{write_marc_xml, xml_document};
use vstd::utf8::encode_utf8;
use crate::format::{Encoding, FormatEncoding, MarcFormat};
use crate::record::{
    byte_of_char, push_decimal, char_byte, decimal, ControlField, ControlFieldModel, DataField, DataFieldModel, Leader, Record, RecordModel,
    copy_record, records_model, SubfieldModel, FIELD_TERMINATOR, RECORD_TERMINATOR, SUBFIELD_DELIMITER,
};
use vstd::prelude::*;
use vstd::string::StringSliceAdditionalSpecFns;

verus! {

/// Why writing failed.
#[derive(Debug, Clone, PartialEq, Eq)]
pub enum WriteError {
    IoError(String),
    InvalidRecord(String),
    InvalidEncoding(String),
    Other(String),
}

/// The kind of a write failure, without its message.
pub enum WriteFault {
    Io,
    Record,
    Encoding,
    Other,
}

impl WriteError {
    pub open spec fn fault(self) -> WriteFault {
        match self {
            WriteError::IoError(_) => WriteFault::Io,
            WriteError::InvalidRecord(_) => WriteFault::Record,
            WriteError::InvalidEncoding(_) => WriteFault::Encoding,
            WriteError::Other(_) => WriteFault::Other,
        }
    }

    /// The failure's description: the text it carries.
    pub fn message(&self) -> (r: String)
        ensures
            match self {
                WriteError::IoError(m) => r@ == m@,
                WriteError::InvalidRecord(m) => r@ == m@,
                WriteError::InvalidEncoding(m) => r@ == m@,
                WriteError::Other(m) => r@ == m@,
            },
    {
        match self {
            WriteError::IoError(m) => m.clone(),
            WriteError::InvalidRecord(m) => m.clone(),
            WriteError::InvalidEncoding(m) => m.clone(),
            WriteError::Other(m) => m.clone(),
        }
    }
}

/// Concatenation of byte runs, in order.
pub open spec fn flatten(s: Seq<Seq<u8>>) -> Seq<u8>
    decreases s.len(),
{
    if s.len() == 0 {
        Seq::empty()
    } else {
        flatten(s.drop_last()) + s.last()
    }
}

/// A tag that the directory can carry: three ASCII characters.
pub open spec fn tag_valid(tag: Seq<char>) -> bool {
    &&& tag.len() == 3
    &&& forall|i: int| 0 <= i < 3 ==> (#[trigger] tag[i] as u32) < 0x80
}

/// The image of a control field: its encoded value and a field terminator.
pub open spec fn control_image(f: ControlFieldModel, e: Encoding) -> Option<Seq<u8>> {
    match encode_text(f.value, e) {
        Some(b) => Some(b.push(FIELD_TERMINATOR)),
        None => None,
    }
}

/// The subfield stream of a data field: each subfield as delimiter, code and value.
pub open spec fn subfields_bytes(sfs: Seq<SubfieldModel>, e: Encoding) -> Option<Seq<u8>>
    decreases sfs.len(),
{
    if sfs.len() == 0 {
        Some(Seq::empty())
    } else {
        match (subfields_bytes(sfs.drop_last(), e), encode_text(sfs.last().value, e)) {
            (Some(a), Some(v)) => Some(a + seq![SUBFIELD_DELIMITER, char_byte(sfs.last().code)] + v),
            _ => None,
        }
    }
}

/// The image of a data field: indicators, subfield stream, field terminator.
pub open spec fn data_image(f: DataFieldModel, e: Encoding) -> Option<Seq<u8>> {
    match subfields_bytes(f.subfields, e) {
        Some(b) => Some(seq![char_byte(f.ind1), char_byte(f.ind2)] + b + seq![FIELD_TERMINATOR]),
        None => None,
    }
}

pub open spec fn control_images(fs: Seq<ControlFieldModel>, e: Encoding) -> Option<Seq<Seq<u8>>>
    decreases fs.len(),
{
    if fs.len() == 0 {
        Some(Seq::empty())
    } else {
        match (control_images(fs.drop_last(), e), control_image(fs.last(), e)) {
            (Some(a), Some(b)) => Some(a.push(b)),
            _ => None,
        }
    }
}

pub open spec fn data_images(fs: Seq<DataFieldModel>, e: Encoding) -> Option<Seq<Seq<u8>>>
    decreases fs.len(),
{
    if fs.len() == 0 {
        Some(Seq::empty())
    } else {
        match (data_images(fs.drop_last(), e), data_image(fs.last(), e)) {
            (Some(a), Some(b)) => Some(a.push(b)),
            _ => None,
        }
    }
}

/// The images of all fields, control fields first, in record order.
pub open spec fn field_images(r: RecordModel, e: Encoding) -> Option<Seq<Seq<u8>>> {
    match (control_images(r.control_fields, e), data_images(r.data_fields, e)) {
        (Some(c), Some(d)) => Some(c + d),
        _ => None,
    }
}

/// The tags of all fields, in the order of `field_images`.
pub open spec fn field_tags(r: RecordModel) -> Seq<Seq<char>> {
    r.control_fields.map_values(|f: ControlFieldModel| f.tag) + r.data_fields.map_values(
        |f: DataFieldModel| f.tag,
    )
}

/// Where the image of field `i` starts in the data area.
pub open spec fn field_start(images: Seq<Seq<u8>>, i: int) -> nat {
    flatten(images.take(i)).len()
}

/// One directory entry: tag, four-digit length, five-digit start.
pub open spec fn dir_entry(tag: Seq<char>, len: nat, start: nat) -> Seq<u8> {
    ascii_bytes(tag) + decimal(len, 4) + decimal(start, 5)
}

/// The bytes of an ASCII text.
pub open spec fn ascii_bytes(t: Seq<char>) -> Seq<u8> {
    Seq::new(t.len(), |i: int| (t[i] as u32) as u8)
}

pub open spec fn dir_entries(tags: Seq<Seq<char>>, images: Seq<Seq<u8>>) -> Seq<Seq<u8>> {
    Seq::new(images.len(), |i: int| dir_entry(tags[i], images[i].len(), field_start(images, i)))
}

/// The directory: one entry per field and the directory terminator.
pub open spec fn directory(tags: Seq<Seq<char>>, images: Seq<Seq<u8>>) -> Seq<u8> {
    flatten(dir_entries(tags, images)).push(FIELD_TERMINATOR)
}

/// The data area: the field images and the record terminator.
pub open spec fn data_area(images: Seq<Seq<u8>>) -> Seq<u8> {
    flatten(images).push(RECORD_TERMINATOR)
}

pub open spec fn base_address(images: Seq<Seq<u8>>) -> nat {
    24 + 12 * images.len() + 1
}

pub open spec fn total_length(images: Seq<Seq<u8>>) -> nat {
    base_address(images) + data_area(images).len()
}

/// Whether the directory and leader can describe these fields: tags of three
/// ASCII characters, field lengths within four digits, and the record length
/// within five.
pub open spec fn fits(tags: Seq<Seq<char>>, images: Seq<Seq<u8>>) -> bool {
    &&& forall|i: int| 0 <= i < tags.len() ==> tag_valid(#[trigger] tags[i])
    &&& forall|i: int| 0 <= i < images.len() ==> (#[trigger] images[i]).len() < 10000
    &&& total_length(images) < 100000
}

/// The leader as written: positions 0 and 12 computed, the rest kept.
pub open spec fn emitted_leader(l: Leader, images: Seq<Seq<u8>>) -> Leader {
    Leader {
        record_length: total_length(images) as u32,
        base_address_of_data: base_address(images) as u32,
        ..l
    }
}

/// The ISO 2709 image of a record whose fields fit.
pub open spec fn record_image(r: RecordModel, images: Seq<Seq<u8>>) -> Seq<u8> {
    emitted_leader(r.leader, images).spec_bytes() + directory(field_tags(r), images) + data_area(
        images,
    )
}

/// The outcome of encoding one record: its image, or the kind of failure.
pub open spec fn encode_record(r: RecordModel, e: Encoding) -> Result<Seq<u8>, WriteFault> {
    match field_images(r, e) {
        None => Err(WriteFault::Encoding),
        Some(images) => if fits(field_tags(r), images) {
            Ok(record_image(r, images))
        } else {
            Err(WriteFault::Record)
        },
    }
}

/// The outcome of encoding records in order: their images one after another,
/// or the failure of the first record that fails.
pub open spec fn encode_records(rs: Seq<RecordModel>, e: Encoding) -> Result<Seq<u8>, WriteFault>
    decreases rs.len(),
{
    if rs.len() == 0 {
        Ok(Seq::empty())
    } else {
        match encode_records(rs.drop_last(), e) {
            Err(f) => Err(f),
            Ok(a) => match encode_record(rs.last(), e) {
                Err(f) => Err(f),
                Ok(b) => Ok(a + b),
            },
        }
    }
}

proof fn lemma_control_images_stuck(fs: Seq<ControlFieldModel>, e: Encoding, k: int)
    requires
        0 <= k <= fs.len(),
        control_images(fs.take(k), e) is None,
    ensures
        control_images(fs, e) is None,
    decreases fs.len() - k,
{
    if k == fs.len() {
        assert(fs.take(k) =~= fs);
    } else {
        assert(fs.take(k + 1).drop_last() =~= fs.take(k));
        lemma_control_images_stuck(fs, e, k + 1);
    }
}

proof fn lemma_data_images_stuck(fs: Seq<DataFieldModel>, e: Encoding, k: int)
    requires
        0 <= k <= fs.len(),
        data_images(fs.take(k), e) is None,
    ensures
        data_images(fs, e) is None,
    decreases fs.len() - k,
{
    if k == fs.len() {
        assert(fs.take(k) =~= fs);
    } else {
        assert(fs.take(k + 1).drop_last() =~= fs.take(k));
        lemma_data_images_stuck(fs, e, k + 1);
    }
}

proof fn lemma_subfields_stuck(sfs: Seq<SubfieldModel>, e: Encoding, k: int)
    requires
        0 <= k <= sfs.len(),
        subfields_bytes(sfs.take(k), e) is None,
    ensures
        subfields_bytes(sfs, e) is None,
    decreases sfs.len() - k,
{
    if k == sfs.len() {
        assert(sfs.take(k) =~= sfs);
    } else {
        assert(sfs.take(k + 1).drop_last() =~= sfs.take(k));
        lemma_subfields_stuck(sfs, e, k + 1);
    }
}

/// A prefix of the images is no longer than all of them.
proof fn lemma_flatten_take_len(s: Seq<Seq<u8>>, k: int)
    requires
        0 <= k <= s.len(),
    ensures
        flatten(s.take(k)).len() <= flatten(s).len(),
    decreases s.len() - k,
{
    if k == s.len() {
        assert(s.take(k) =~= s);
    } else {
        assert(s.take(k + 1).drop_last() =~= s.take(k));
        lemma_flatten_take_len(s, k + 1);
    }
}

/// Appends all of `src` to `dst`.
pub(crate) fn append_bytes(dst: &mut Vec<u8>, src: &[u8])
    ensures
        final(dst)@ == old(dst)@ + src@,
{
    let mut j: usize = 0;
    while j < src.len()
        invariant
            0 <= j <= src@.len(),
            dst@ == old(dst)@ + src@.subrange(0, j as int),
        decreases src.len() - j,
    {
        dst.push(src[j]);
        proof {
            assert(src@.subrange(0, j + 1) =~= src@.subrange(0, j as int).push(src@[j as int]));
        }
        j = j + 1;
    }
    proof {
        assert(src@.subrange(0, j as int) =~= src@);
    }
}

/// The image of one data field.
#[verifier::rlimit(60)]
fn data_field_image(field: &DataField, enc: Encoding) -> (r: Result<Vec<u8>, WriteError>)
    ensures
        match data_image(field@, enc) {
            Some(img) => r matches Ok(b) && b@ == img,
            None => r matches Err(e) && e.fault() == WriteFault::Encoding,
        },
{
    let ghost sfs = field@.subfields;
    let mut field_data: Vec<u8> = Vec::new();
    field_data.push(byte_of_char(field.ind1));
    field_data.push(byte_of_char(field.ind2));
    let ghost head = field_data@;
    let mut j: usize = 0;
    while j < field.subfields.len()
        invariant
            sfs == field@.subfields,
            sfs.len() == field.subfields@.len(),
            0 <= j <= sfs.len(),
            head == seq![char_byte(field.ind1), char_byte(field.ind2)],
            subfields_bytes(sfs.take(j as int), enc) matches Some(acc) && field_data@ == head + acc,
        decreases field.subfields.len() - j,
    {
        let subfield = &field.subfields[j];
        proof {
            assert(sfs.take(j + 1).drop_last() =~= sfs.take(j as int));
            assert(sfs.take(j + 1).last() == subfield@);
        }
        let value_bytes = match convert_from_encoding(subfield.value.as_str(), enc) {
            Ok(b) => b,
            Err(m) => {
                proof {
                    lemma_subfields_stuck(sfs, enc, j + 1);
                }
                return Err(WriteError::InvalidEncoding(m));
            },
        };
        field_data.push(SUBFIELD_DELIMITER);
        field_data.push(byte_of_char(subfield.code));
        append_bytes(&mut field_data, value_bytes.as_slice());
        proof {
            let acc = subfields_bytes(sfs.take(j as int), enc)->0;
            assert(subfields_bytes(sfs.take(j + 1), enc) == Some(
                acc + seq![SUBFIELD_DELIMITER, char_byte(subfield.code)] + value_bytes@,
            ));
            assert(field_data@ =~= head + (acc + seq![SUBFIELD_DELIMITER, char_byte(subfield.code)]
                + value_bytes@));
        }
        j = j + 1;
    }
    field_data.push(FIELD_TERMINATOR);
    proof {
        assert(sfs.take(j as int) =~= sfs);
        let acc = subfields_bytes(sfs, enc)->0;
        assert(field_data@ =~= seq![char_byte(field.ind1), char_byte(field.ind2)] + acc + seq![
            FIELD_TERMINATOR,
        ]);
    }
    Ok(field_data)
}

/// The byte runs held by a vector of vectors.
pub open spec fn byte_runs(v: Seq<Vec<u8>>) -> Seq<Seq<u8>> {
    v.map_values(|b: Vec<u8>| b@)
}

/// The images of the control fields, in order.
fn control_field_images(fields: &Vec<ControlField>, enc: Encoding) -> (r: Result<
    Vec<Vec<u8>>,
    WriteError,
>)
    ensures
        match control_images(fields@.map_values(|f: ControlField| f@), enc) {
            Some(imgs) => r matches Ok(v) && byte_runs(v@) == imgs && imgs.len() == fields@.len(),
            None => r matches Err(e) && e.fault() == WriteFault::Encoding,
        },
{
    let ghost fs = fields@.map_values(|f: ControlField| f@);
    let mut out: Vec<Vec<u8>> = Vec::new();
    let mut i: usize = 0;
    while i < fields.len()
        invariant
            fs == fields@.map_values(|f: ControlField| f@),
            0 <= i <= fields@.len(),
            control_images(fs.take(i as int), enc) == Some(byte_runs(out@)),
            out@.len() == i,
        decreases fields.len() - i,
    {
        let field = &fields[i];
        proof {
            assert(fs.take(i + 1).drop_last() =~= fs.take(i as int));
            assert(fs.take(i + 1).last() == field@);
        }
        let mut value_bytes = match convert_from_encoding(field.value.as_str(), enc) {
            Ok(b) => b,
            Err(m) => {
                proof {
                    lemma_control_images_stuck(fs, enc, i + 1);
                }
                return Err(WriteError::InvalidEncoding(m));
            },
        };
        value_bytes.push(FIELD_TERMINATOR);
        let ghost prev = out@;
        out.push(value_bytes);
        proof {
            assert(byte_runs(out@) =~= byte_runs(prev).push(out@[i as int]@));
        }
        i = i + 1;
    }
    proof {
        assert(fs.take(i as int) =~= fs);
    }
    Ok(out)
}

/// The images of the data fields, in order.
fn data_field_images(fields: &Vec<DataField>, enc: Encoding) -> (r: Result<
    Vec<Vec<u8>>,
    WriteError,
>)
    ensures
        match data_images(fields@.map_values(|f: DataField| f@), enc) {
            Some(imgs) => r matches Ok(v) && byte_runs(v@) == imgs && imgs.len() == fields@.len(),
            None => r matches Err(e) && e.fault() == WriteFault::Encoding,
        },
{
    let ghost fs = fields@.map_values(|f: DataField| f@);
    let mut out: Vec<Vec<u8>> = Vec::new();
    let mut i: usize = 0;
    while i < fields.len()
        invariant
            fs == fields@.map_values(|f: DataField| f@),
            0 <= i <= fields@.len(),
            data_images(fs.take(i as int), enc) == Some(byte_runs(out@)),
            out@.len() == i,
        decreases fields.len() - i,
    {
        let field = &fields[i];
        proof {
            assert(fs.take(i + 1).drop_last() =~= fs.take(i as int));
            assert(fs.take(i + 1).last() == field@);
        }
        let img = match data_field_image(field, enc) {
            Ok(b) => b,
            Err(e) => {
                proof {
                    lemma_data_images_stuck(fs, enc, i + 1);
                }
                return Err(e);
            },
        };
        let ghost prev = out@;
        out.push(img);
        proof {
            assert(byte_runs(out@) =~= byte_runs(prev).push(out@[i as int]@));
        }
        i = i + 1;
    }
    proof {
        assert(fs.take(i as int) =~= fs);
    }
    Ok(out)
}

/// All byte runs, one after another.
fn concat_runs(parts: &Vec<Vec<u8>>) -> (r: Vec<u8>)
    ensures
        r@ == flatten(byte_runs(parts@)),
{
    let ghost runs = byte_runs(parts@);
    let mut out: Vec<u8> = Vec::new();
    let mut i: usize = 0;
    while i < parts.len()
        invariant
            runs == byte_runs(parts@),
            0 <= i <= parts@.len(),
            out@ == flatten(runs.take(i as int)),
        decreases parts.len() - i,
    {
        append_bytes(&mut out, parts[i].as_slice());
        proof {
            assert(runs.take(i + 1).drop_last() =~= runs.take(i as int));
        }
        i = i + 1;
    }
    proof {
        assert(runs.take(i as int) =~= runs);
    }
    out
}

/// The tags of a record's fields, control fields first, as characters.
fn tags_of(record: &Record) -> (r: Vec<Vec<char>>)
    ensures
        r@.map_values(|t: Vec<char>| t@) == field_tags(record@),
{
    let ghost rm = record@;
    let mut out: Vec<Vec<char>> = Vec::new();
    let mut i: usize = 0;
    while i < record.control_fields.len()
        invariant
            rm == record@,
            0 <= i <= record.control_fields@.len(),
            out@.map_values(|t: Vec<char>| t@) == rm.control_fields.take(i as int).map_values(
                |f: ControlFieldModel| f.tag,
            ),
        decreases record.control_fields.len() - i,
    {
        let ghost prev = out@;
        let t = chars_of(record.control_fields[i].tag.as_str());
        out.push(t);
        proof {
            assert(out@.map_values(|t: Vec<char>| t@) =~= prev.map_values(|t: Vec<char>| t@).push(
                t@,
            ));
            assert(rm.control_fields.take(i + 1).map_values(|f: ControlFieldModel| f.tag)
                =~= rm.control_fields.take(i as int).map_values(|f: ControlFieldModel| f.tag).push(
                rm.control_fields[i as int].tag,
            ));
        }
        i = i + 1;
    }
    let mut j: usize = 0;
    while j < record.data_fields.len()
        invariant
            rm == record@,
            i == record.control_fields@.len(),
            0 <= j <= record.data_fields@.len(),
            out@.map_values(|t: Vec<char>| t@) == rm.control_fields.map_values(
                |f: ControlFieldModel| f.tag,
            ) + rm.data_fields.take(j as int).map_values(|f: DataFieldModel| f.tag),
        decreases record.data_fields.len() - j,
    {
        proof {
            assert(rm.control_fields.take(i as int) =~= rm.control_fields);
        }
        let ghost prev = out@;
        let t = chars_of(record.data_fields[j].tag.as_str());
        out.push(t);
        proof {
            assert(out@.map_values(|t: Vec<char>| t@) =~= prev.map_values(|t: Vec<char>| t@).push(
                t@,
            ));
            assert(rm.data_fields.take(j + 1).map_values(|f: DataFieldModel| f.tag)
                =~= rm.data_fields.take(j as int).map_values(|f: DataFieldModel| f.tag).push(
                rm.data_fields[j as int].tag,
            ));
            assert(out@.map_values(|t: Vec<char>| t@) =~= rm.control_fields.map_values(
                |f: ControlFieldModel| f.tag,
            ) + rm.data_fields.take(j + 1).map_values(|f: DataFieldModel| f.tag));
        }
        j = j + 1;
    }
    proof {
        assert(rm.control_fields.take(i as int) =~= rm.control_fields);
        assert(rm.data_fields.take(j as int) =~= rm.data_fields);
    }
    out
}

/// The directory for fields with these tags and images, when they fit in it.
#[verifier::rlimit(60)]
fn build_directory(tags: &Vec<Vec<char>>, images: &Vec<Vec<u8>>) -> (r: Result<Vec<u8>, WriteError>)
    requires
        tags@.len() == images@.len(),
        flatten(byte_runs(images@)).len() < 100000,
    ensures
        ({
            let ts = tags@.map_values(|t: Vec<char>| t@);
            let imgs = byte_runs(images@);
            if (forall|i: int| 0 <= i < ts.len() ==> tag_valid(#[trigger] ts[i])) && (forall|i: int|
                0 <= i < imgs.len() ==> (#[trigger] imgs[i]).len() < 10000) {
                r matches Ok(d) && d@ == directory(ts, imgs)
            } else {
                r matches Err(e) && e.fault() == WriteFault::Record
            }
        }),
{
    let ghost ts = tags@.map_values(|t: Vec<char>| t@);
    let ghost imgs = byte_runs(images@);
    let n = images.len();
    let mut dir: Vec<u8> = Vec::new();
    let mut start: usize = 0;
    let mut k: usize = 0;
    while k < n
        invariant
            ts == tags@.map_values(|t: Vec<char>| t@),
            imgs == byte_runs(images@),
            n == images@.len(),
            n == tags@.len(),
            flatten(imgs).len() < 100000,
            0 <= k <= n,
            start == field_start(imgs, k as int),
            dir@ == flatten(dir_entries(ts, imgs).take(k as int)),
            forall|q: int| 0 <= q < k ==> tag_valid(#[trigger] ts[q]),
            forall|q: int| 0 <= q < k ==> (#[trigger] imgs[q]).len() < 10000,
        decreases n - k,
    {
        let cs = &tags[k];
        if cs.len() != 3 || cs[0] as u32 >= 0x80 || cs[1] as u32 >= 0x80 || cs[2] as u32 >= 0x80 {
            proof {
                assert(ts[k as int] == cs@);
                assert(!tag_valid(ts[k as int]));
            }
            return Err(WriteError::InvalidRecord("tag must be three ASCII characters".to_owned()));
        }
        let len = images[k].len();
        if len >= 10000 {
            proof {
                assert(imgs[k as int].len() == len);
            }
            return Err(WriteError::InvalidRecord("field longer than 9999 bytes".to_owned()));
        }
        proof {
            assert(ts[k as int] == cs@);
            lemma_flatten_take_len(imgs, k + 1);
            assert(imgs.take(k + 1).drop_last() =~= imgs.take(k as int));
            assert(imgs.take(k + 1).last() == imgs[k as int]);
        }
        dir.push((cs[0] as u32) as u8);
        dir.push((cs[1] as u32) as u8);
        dir.push((cs[2] as u32) as u8);
        push_decimal(&mut dir, len as u32, 4);
        push_decimal(&mut dir, start as u32, 5);
        proof {
            let entries = dir_entries(ts, imgs);
            assert(entries.take(k + 1).drop_last() =~= entries.take(k as int));
            assert(ascii_bytes(ts[k as int]) =~= seq![
                (cs@[0] as u32) as u8,
                (cs@[1] as u32) as u8,
                (cs@[2] as u32) as u8,
            ]);
            assert(dir@ =~= flatten(entries.take(k as int)) + entries[k as int]);
        }
        start = start + len;
        k = k + 1;
    }
    dir.push(FIELD_TERMINATOR);
    proof {
        assert(dir_entries(ts, imgs).take(k as int) =~= dir_entries(ts, imgs));
    }
    Ok(dir)
}

/// Appends the ISO 2709 image of one record: leader, directory, data area.
/// The leader's record length and base address are computed; its other
/// positions are kept. Nothing is appended when the record cannot be written.
#[verifier::rlimit(60)]
fn write_single_marc21_binary(
    record: &Record,
    format_encoding: FormatEncoding,
    output: &mut Vec<u8>,
) -> (r: Result<(), WriteError>)
    ensures
        match encode_record(record@, format_encoding.encoding) {
            Ok(img) => r.is_ok() && final(output)@ == old(output)@ + img,
            Err(f) => r matches Err(e) && e.fault() == f && final(output)@ == old(output)@,
        },
{
    let enc = format_encoding.encoding;
    let ghost rm = record@;
    let mut images = control_field_images(&record.control_fields, enc)?;
    let mut data_part = data_field_images(&record.data_fields, enc)?;
    let ghost cimgs = byte_runs(images@);
    let ghost dimgs = byte_runs(data_part@);
    images.append(&mut data_part);
    let ghost imgs = byte_runs(images@);
    proof {
        assert(imgs =~= cimgs + dimgs);
        assert(field_images(rm, enc) == Some(imgs));
    }
    let tags = tags_of(record);
    proof {
        assert(tags@.len() == tags@.map_values(|t: Vec<char>| t@).len());
        assert(imgs.len() == images@.len());
    }
    let mut data = concat_runs(&images);
    let n = images.len();
    if data.len() >= 100000 || n >= 100000 {
        return Err(WriteError::InvalidRecord("record longer than its leader can state".to_owned()));
    }
    let base = 24 + 12 * n + 1;
    let total = base + data.len() + 1;
    if total >= 100000 {
        return Err(WriteError::InvalidRecord("record longer than its leader can state".to_owned()));
    }
    let directory = build_directory(&tags, &images)?;
    data.push(RECORD_TERMINATOR);
    let mut leader = record.leader;
    leader.record_length = total as u32;
    leader.base_address_of_data = base as u32;
    let leader_bytes = leader.to_bytes();
    append_bytes(output, leader_bytes.as_slice());
    append_bytes(output, directory.as_slice());
    append_bytes(output, data.as_slice());
    proof {
        assert(leader == emitted_leader(rm.leader, imgs));
        assert(final(output)@ =~= old(output)@ + record_image(rm, imgs));
    }
    Ok(())
}

proof fn lemma_encode_records_stuck(rs: Seq<RecordModel>, e: Encoding, k: int)
    requires
        0 <= k <= rs.len(),
        encode_records(rs.take(k), e) is Err,
    ensures
        encode_records(rs, e) == encode_records(rs.take(k), e),
    decreases rs.len() - k,
{
    if k == rs.len() {
        assert(rs.take(k) =~= rs);
    } else {
        assert(rs.take(k + 1).drop_last() =~= rs.take(k));
        lemma_encode_records_stuck(rs, e, k + 1);
    }
}

/// Appends the ISO 2709 images of the records one after another; on failure
/// nothing is appended.
pub fn write_marc21_binary(
    records: &[Record],
    format_encoding: FormatEncoding,
    output: &mut Vec<u8>,
) -> (r: Result<(), WriteError>)
    ensures
        match encode_records(records_model(records@), format_encoding.encoding) {
            Ok(img) => r.is_ok() && final(output)@ == old(output)@ + img,
            Err(f) => r matches Err(e) && e.fault() == f && final(output)@ == old(output)@,
        },
{
    let ghost rs = records_model(records@);
    let mut buffer: Vec<u8> = Vec::new();
    let mut i: usize = 0;
    while i < records.len()
        invariant
            rs == records_model(records@),
            0 <= i <= records@.len(),
            encode_records(rs.take(i as int), format_encoding.encoding) == Ok::<
                Seq<u8>,
                WriteFault,
            >(buffer@),
        decreases records.len() - i,
    {
        proof {
            assert(rs.take(i + 1).drop_last() =~= rs.take(i as int));
            assert(rs.take(i + 1).last() == records@[i as int]@);
        }
        match write_single_marc21_binary(&records[i], format_encoding, &mut buffer) {
            Ok(()) => {},
            Err(e) => {
                proof {
                    lemma_encode_records_stuck(rs, format_encoding.encoding, i + 1);
                }
                return Err(e);
            },
        }
        i = i + 1;
    }
    proof {
        assert(rs.take(i as int) =~= rs);
    }
    append_bytes(output, buffer.as_slice());
    Ok(())
}

/// UNIMARC shares the ISO 2709 envelope with MARC21.
pub fn write_unimarc_binary(
    records: &[Record],
    format_encoding: FormatEncoding,
    output: &mut Vec<u8>,
) -> (r: Result<(), WriteError>)
    ensures
        match encode_records(records_model(records@), format_encoding.encoding) {
            Ok(img) => r.is_ok() && final(output)@ == old(output)@ + img,
            Err(f) => r matches Err(e) && e.fault() == f && final(output)@ == old(output)@,
        },
{
    write_marc21_binary(records, format_encoding, output)
}

/// The bytes that records are written as in a dialect, or the kind of failure.
pub open spec fn encode_output(rs: Seq<RecordModel>, format_encoding: FormatEncoding) -> Result<
    Seq<u8>,
    WriteFault,
> {
    match format_encoding.format {
        MarcFormat::MarcXml => match xml_document(rs) {
            Some(doc) => Ok(encode_utf8(doc)),
            None => Err(WriteFault::Other),
        },
        _ => encode_records(rs, format_encoding.encoding),
    }
}

/// Appends the records in the given dialect: MARC21 and UNIMARC through the
/// ISO 2709 writer, MARCXML through the XML writer. Nothing is appended on failure.
pub fn write(records: &[Record], format_encoding: FormatEncoding, output: &mut Vec<u8>) -> (r: Result<
    (),
    WriteError,
>)
    ensures
        match encode_output(records_model(records@), format_encoding) {
            Ok(b) => r.is_ok() && final(output)@ == old(output)@ + b,
            Err(f) => r matches Err(e) && e.fault() == f && final(output)@ == old(output)@,
        },
{
    match format_encoding.format {
        MarcFormat::Marc21 => write_marc21_binary(records, format_encoding, output),
        MarcFormat::Unimarc => write_unimarc_binary(records, format_encoding, output),
        MarcFormat::MarcXml => write_marc_xml(records, format_encoding, output),
    }
}

/// Appends one record in the given dialect.
pub fn write_one(record: &Record, format_encoding: FormatEncoding, output: &mut Vec<u8>) -> (r: Result<
    (),
    WriteError,
>)
    ensures
        match encode_output(seq![record@], format_encoding) {
            Ok(b) => r.is_ok() && final(output)@ == old(output)@ + b,
            Err(f) => r matches Err(e) && e.fault() == f && final(output)@ == old(output)@,
        },
{
    let records = vec![copy_record(record)];
    proof {
        assert(records_model(records@) =~= seq![record@]);
    }
    write(records.as_slice(), format_encoding, output)
}

} // verus!
