//! Properties that relate the reader and the writer, proved over their specifications.
use crate::encoding::{
    decode_text, encode_text, in_latin1, iso5426_decoded, iso5426_encoded, latin1_bytes,
    latin1_text,
};
use crate::format::Encoding;
use crate::parser::{decode_records, first_record};
use crate::record::{
    all_digits, decimal, digits_value, lemma_decimal, lemma_leader_round_trip, pow10,
    ControlFieldModel, DataFieldModel, RecordModel, FIELD_TERMINATOR, RECORD_TERMINATOR,
};
use crate::writer::{
    ascii_bytes, base_address, control_images, data_area, data_images, dir_entries,
    directory, emitted_leader, encode_record, encode_records, field_images, field_start,
    field_tags, fits, flatten, record_image, tag_valid, total_length, WriteFault,
};
use crate::parser::{
    entry_bytes, lemma_decode_records_step, decode_record, is_control_tag, next_delimiter, parse_entries, parse_entry, parse_subfields,
    subfields_from, ParseFault, ParsedField,
};
use crate::record::{char_byte, SubfieldModel, SUBFIELD_DELIMITER};
use crate::writer::{control_image, data_image, subfields_bytes};
use vstd::prelude::*;
use vstd::utf8::{decode_utf8, encode_utf8, valid_utf8};

verus! {

/// Each run of a flattening is where its start says.
pub proof fn lemma_flatten_prefix(s: Seq<Seq<u8>>, k: int)
    requires
        0 <= k <= s.len(),
    ensures
        flatten(s.take(k)).len() <= flatten(s).len(),
        flatten(s).take(flatten(s.take(k)).len() as int) == flatten(s.take(k)),
    decreases s.len() - k,
{
    if k == s.len() {
        assert(s.take(k) =~= s);
        assert(flatten(s).take(flatten(s).len() as int) =~= flatten(s));
    } else {
        lemma_flatten_prefix(s, k + 1);
        assert(s.take(k + 1).drop_last() =~= s.take(k));
        let a = flatten(s.take(k));
        let b = flatten(s.take(k + 1));
        assert(b == a + s[k]);
        assert(flatten(s).take(a.len() as int) =~= b.take(a.len() as int));
        assert(b.take(a.len() as int) =~= a);
    }
}

/// The `i`-th run sits at its start in the flattening.
pub proof fn lemma_flatten_element(s: Seq<Seq<u8>>, i: int)
    requires
        0 <= i < s.len(),
    ensures
        field_start(s, i) + s[i].len() <= flatten(s).len(),
        flatten(s).subrange(field_start(s, i) as int, (field_start(s, i) + s[i].len()) as int) == s[i],
        field_start(s, i + 1) == field_start(s, i) + s[i].len(),
{
    lemma_flatten_prefix(s, i + 1);
    assert(s.take(i + 1).drop_last() =~= s.take(i));
    let a = flatten(s.take(i));
    let b = flatten(s.take(i + 1));
    assert(b == a + s[i]);
    let lo = a.len() as int;
    let hi = lo + s[i].len();
    assert(flatten(s).subrange(lo, hi) =~= b.subrange(lo, hi));
    assert(b.subrange(lo, hi) =~= s[i]);
}

/// Runs of equal width flatten to that width times their number.
pub proof fn lemma_flatten_uniform(s: Seq<Seq<u8>>, w: nat)
    requires
        forall|i: int| 0 <= i < s.len() ==> (#[trigger] s[i]).len() == w,
    ensures
        flatten(s).len() == w * s.len(),
        forall|i: int| 0 <= i <= s.len() ==> #[trigger] field_start(s, i) == w * i,
    decreases s.len(),
{
    if s.len() > 0 {
        lemma_flatten_uniform(s.drop_last(), w);
        assert forall|i: int| 0 <= i <= s.len() implies #[trigger] field_start(s, i) == w * i by {
            if i < s.len() {
                assert(s.take(i) =~= s.drop_last().take(i));
                assert(field_start(s.drop_last(), i) == w * i);
            } else {
                assert(s.take(i) =~= s);
                assert(s.drop_last().take(i - 1) =~= s.drop_last());
                assert(field_start(s.drop_last(), i - 1) == w * (i - 1));
                assert(w * (i - 1) + w == w * i) by (nonlinear_arith);
            }
        }
        assert(s.take(s.len() as int) =~= s);
        let n = s.len() as int;
        assert(w * (n - 1) + w == w * n) by (nonlinear_arith);
    } else {
        assert forall|i: int| 0 <= i <= s.len() implies #[trigger] field_start(s, i) == w * i by {
            assert(s.take(i) =~= Seq::<Seq<u8>>::empty());
            assert(flatten(Seq::<Seq<u8>>::empty()).len() == 0);
            assert(w * i == 0) by (nonlinear_arith)
                requires
                    i == 0,
            ;
        }
        assert(w * s.len() == 0) by (nonlinear_arith)
            requires
                s.len() == 0,
        ;
    }
}

/// Every directory entry of valid tags and fitting images is twelve bytes.
proof fn lemma_dir_entries_width(tags: Seq<Seq<char>>, images: Seq<Seq<u8>>)
    requires
        tags.len() == images.len(),
        fits(tags, images),
    ensures
        forall|i: int| 0 <= i < images.len() ==> (#[trigger] dir_entries(tags, images)[i]).len() == 12,
        flatten(dir_entries(tags, images)).len() == 12 * images.len(),
{
    let es = dir_entries(tags, images);
    assert forall|i: int| 0 <= i < images.len() implies (#[trigger] es[i]).len() == 12 by {
        assert(tag_valid(tags[i]));
        lemma_decimal(images[i].len() as nat, 4);
        lemma_decimal(field_start(images, i), 5);
    }
    lemma_flatten_uniform(es, 12);
}

/// The parts of a written record and where they sit.
#[verifier::rlimit(60)]
proof fn lemma_image_layout(r: RecordModel, e: Encoding)
    requires
        encode_record(r, e) is Ok,
    ensures
        field_images(r, e) is Some,
        ({
            let images = field_images(r, e)->0;
            let img = encode_record(r, e)->Ok_0;
            &&& fits(field_tags(r), images)
            &&& field_tags(r).len() == images.len()
            &&& img == record_image(r, images)
            &&& img.len() == total_length(images)
            &&& total_length(images) < 100000
            &&& img.take(24) == emitted_leader(r.leader, images).spec_bytes()
            &&& img.subrange(24, base_address(images) as int) == directory(field_tags(r), images)
            &&& img.subrange(base_address(images) as int, img.len() as int) == data_area(images)
        }),
{
    let images = field_images(r, e)->0;
    lemma_images_count(r, e);
    let tags = field_tags(r);
    lemma_dir_entries_width(tags, images);
    let l = emitted_leader(r.leader, images);
    lemma_decimal(l.record_length as nat, 5);
    lemma_decimal(l.base_address_of_data as nat, 5);
    assert(l.spec_bytes().len() == 24);
    let img = record_image(r, images);
    assert(img.take(24) =~= l.spec_bytes());
    assert(img.subrange(24, base_address(images) as int) =~= directory(tags, images));
    assert(img.subrange(base_address(images) as int, img.len() as int) =~= data_area(images));
}

/// There is one image per field.
proof fn lemma_images_count(r: RecordModel, e: Encoding)
    requires
        field_images(r, e) is Some,
    ensures
        field_images(r, e)->0.len() == field_tags(r).len(),
        control_images(r.control_fields, e)->0.len() == r.control_fields.len(),
        data_images(r.data_fields, e)->0.len() == r.data_fields.len(),
{
    lemma_control_images_len(r.control_fields, e);
    lemma_data_images_len(r.data_fields, e);
}

proof fn lemma_control_images_len(fs: Seq<ControlFieldModel>, e: Encoding)
    requires
        control_images(fs, e) is Some,
    ensures
        control_images(fs, e)->0.len() == fs.len(),
    decreases fs.len(),
{
    if fs.len() > 0 {
        lemma_control_images_len(fs.drop_last(), e);
    }
}

proof fn lemma_data_images_len(fs: Seq<DataFieldModel>, e: Encoding)
    requires
        data_images(fs, e) is Some,
    ensures
        data_images(fs, e)->0.len() == fs.len(),
    decreases fs.len(),
{
    if fs.len() > 0 {
        lemma_data_images_len(fs.drop_last(), e);
    }
}

/// A written record starts with five digits that give its own length, and
/// ends with the record terminator.
#[verifier::rlimit(60)]
pub proof fn lemma_self_describing_length(r: RecordModel, e: Encoding)
    requires
        encode_record(r, e) is Ok,
    ensures
        all_digits(encode_record(r, e)->Ok_0.take(5)),
        digits_value(encode_record(r, e)->Ok_0.take(5)) == encode_record(r, e)->Ok_0.len(),
        encode_record(r, e)->Ok_0.last() == RECORD_TERMINATOR,
{
    lemma_image_layout(r, e);
    let images = field_images(r, e)->0;
    let img = encode_record(r, e)->Ok_0;
    let l = emitted_leader(r.leader, images);
    lemma_decimal(l.record_length as nat, 5);
    reveal_with_fuel(pow10, 6);
    assert(img.take(5) =~= l.spec_bytes().take(5));
    assert(l.spec_bytes().take(5) =~= decimal(l.record_length as nat, 5));
}

/// A record without fields is written as 26 bytes: the leader, the directory
/// terminator and the record terminator, with record length 26 and base
/// address 25.
#[verifier::rlimit(60)]
pub proof fn lemma_empty_record(r: RecordModel, e: Encoding)
    requires
        r.control_fields.len() == 0,
        r.data_fields.len() == 0,
    ensures
        encode_record(r, e) is Ok,
        encode_record(r, e)->Ok_0.len() == 26,
        encode_record(r, e)->Ok_0.subrange(24, 26) == seq![FIELD_TERMINATOR, RECORD_TERMINATOR],
        digits_value(encode_record(r, e)->Ok_0.take(5)) == 26,
        digits_value(encode_record(r, e)->Ok_0.subrange(12, 17)) == 25,
{
    let images = Seq::<Seq<u8>>::empty();
    assert(field_images(r, e) == Some(images)) by {
        assert(Seq::<Seq<u8>>::empty() + Seq::<Seq<u8>>::empty() =~= images);
    }
    assert(field_tags(r) =~= Seq::<Seq<char>>::empty());
    assert(flatten(images) =~= Seq::<u8>::empty());
    assert(fits(field_tags(r), images));
    lemma_image_layout(r, e);
    lemma_self_describing_length(r, e);
    let img = encode_record(r, e)->Ok_0;
    let l = emitted_leader(r.leader, images);
    assert(dir_entries(field_tags(r), images) =~= Seq::<Seq<u8>>::empty());
    assert(img.subrange(24, 26) =~= seq![FIELD_TERMINATOR, RECORD_TERMINATOR]);
    lemma_decimal(l.base_address_of_data as nat, 5);
    reveal_with_fuel(pow10, 6);
    assert(img.subrange(12, 17) =~= decimal(l.base_address_of_data as nat, 5));
}

/// No records are written as no bytes, and no bytes read as no records.
pub proof fn lemma_no_records(e: Encoding)
    ensures
        encode_records(Seq::empty(), e) == Ok::<Seq<u8>, WriteFault>(Seq::empty()),
        decode_records(Seq::empty(), e) == Ok::<Seq<RecordModel>, crate::parser::ParseFault>(
            Seq::empty(),
        ),
{
    reveal(decode_records);
}

/// A byte run without subfield delimiters.
pub open spec fn no_delimiter(b: Seq<u8>) -> bool {
    forall|k: int| 0 <= k < b.len() ==> b[k] != SUBFIELD_DELIMITER
}

/// A value that an encoding writes and reads back as itself.
pub open spec fn value_round_trips(v: Seq<char>, e: Encoding) -> bool {
    &&& encode_text(v, e) is Some
    &&& decode_text(encode_text(v, e)->0, e) == Some(v)
}

/// A subfield that reads back as itself: a one-byte code other than the
/// delimiter, and a value that the encoding reads back and whose bytes hold
/// no delimiter.
pub open spec fn subfield_readable(s: SubfieldModel, e: Encoding) -> bool {
    &&& (s.code as u32) < 256
    &&& s.code != '\u{1F}'
    &&& value_round_trips(s.value, e)
    &&& no_delimiter(encode_text(s.value, e)->0)
}

/// A data field that reads back as itself: a data-field tag, one-byte
/// indicators, and readable subfields.
pub open spec fn data_field_readable(f: DataFieldModel, e: Encoding) -> bool {
    &&& !is_control_tag(ascii_bytes(f.tag))
    &&& (f.ind1 as u32) < 256
    &&& (f.ind2 as u32) < 256
    &&& forall|j: int| 0 <= j < f.subfields.len() ==> subfield_readable(#[trigger] f.subfields[j], e)
}

/// A record that reads back as itself: a leader whose positions other than
/// the two lengths (which the writer computes) its bytes can carry,
/// control-field tags below "010" with values the encoding reads back, and
/// readable data fields.
pub open spec fn record_readable(r: RecordModel, e: Encoding) -> bool {
    &&& r.leader.positions_carried()
    &&& forall|i: int|
        0 <= i < r.control_fields.len() ==> is_control_tag(
            ascii_bytes(#[trigger] r.control_fields[i].tag),
        )
    &&& forall|i: int|
        0 <= i < r.control_fields.len() ==> value_round_trips(
            (#[trigger] r.control_fields[i]).value,
            e,
        )
    &&& forall|i: int| 0 <= i < r.data_fields.len() ==> data_field_readable(#[trigger] r.data_fields[i], e)
}

/// What a written record reads back as: the same fields, and the leader with
/// the record length and base address that the writer computed.
pub open spec fn read_back(r: RecordModel, e: Encoding) -> RecordModel {
    RecordModel { leader: emitted_leader(r.leader, field_images(r, e)->0), ..r }
}

proof fn lemma_char_byte(c: char)
    requires
        (c as u32) < 256,
    ensures
        (char_byte(c) as char) == c,
{
}

/// An ASCII tag's bytes are its UTF-8 encoding.
proof fn lemma_ascii_tag(t: Seq<char>)
    requires
        tag_valid(t),
    ensures
        ascii_bytes(t) == encode_utf8(t),
        valid_utf8(ascii_bytes(t)),
        decode_utf8(ascii_bytes(t)) == t,
{
    let t1 = t.drop_first();
    let t2 = t1.drop_first();
    let t3 = t2.drop_first();
    assert(t3 =~= Seq::<char>::empty());
    lemma_ascii_scalar(t[0]);
    lemma_ascii_scalar(t[1]);
    lemma_ascii_scalar(t[2]);
    assert(t1[0] == t[1]);
    assert(t2[0] == t[2]);
    assert(encode_utf8(t3) == Seq::<u8>::empty());
    assert(encode_utf8(t2) == vstd::utf8::encode_scalar(t2[0] as u32) + encode_utf8(t3));
    assert(encode_utf8(t1) == vstd::utf8::encode_scalar(t1[0] as u32) + encode_utf8(t2));
    assert(encode_utf8(t) == vstd::utf8::encode_scalar(t[0] as u32) + encode_utf8(t1));
    assert(encode_utf8(t) =~= ascii_bytes(t));
    vstd::utf8::encode_utf8_valid_utf8(t);
    vstd::utf8::encode_utf8_decode_utf8(t);
}

proof fn lemma_ascii_scalar(c: char)
    requires
        (c as u32) < 0x80,
    ensures
        vstd::utf8::encode_scalar(c as u32) == seq![(c as u32) as u8],
{
    let v = c as u32;
    assert((v & 0x7F) == v) by (bit_vector)
        requires
            v < 0x80,
    ;
}

/// Under UTF-8 every value reads back as itself.
pub proof fn lemma_utf8_round_trips(v: Seq<char>)
    ensures
        value_round_trips(v, Encoding::Utf8),
{
    vstd::utf8::encode_utf8_valid_utf8(v);
    vstd::utf8::encode_utf8_decode_utf8(v);
}

/// Under Latin-1 and MARC-8 every value of Latin-1 characters reads back as itself.
pub proof fn lemma_latin1_round_trips(v: Seq<char>)
    requires
        in_latin1(v),
    ensures
        value_round_trips(v, Encoding::Iso8859_1),
        value_round_trips(v, Encoding::Marc8),
{
    let b = latin1_bytes(v)->0;
    assert(latin1_text(b) =~= v) by {
        assert forall|i: int| 0 <= i < v.len() implies latin1_text(b)[i] == v[i] by {
            assert((v[i] as u32) <= 0xFF);
            lemma_char_byte(v[i]);
        }
    }
}

/// A character that ISO 5426 writes as one byte and reads back: a Latin-1
/// character outside U+0080..=U+009F, other than DEL and the control
/// characters it drops.
pub open spec fn iso5426_kept(c: char) -> bool {
    &&& (c as u32) <= 0xFF
    &&& !(0x80 <= (c as u32) <= 0x9F)
    &&& c != '\u{7F}'
    &&& ((c as u32) >= 0x20 || c == '\t' || c == '\n' || c == '\r')
}

/// Under ISO 5426 every value of kept characters reads back as itself.
pub proof fn lemma_iso5426_round_trips(v: Seq<char>)
    requires
        forall|i: int| 0 <= i < v.len() ==> iso5426_kept(#[trigger] v[i]),
    ensures
        value_round_trips(v, Encoding::Iso5426),
    decreases v.len(),
{
    if v.len() == 0 {
        assert(iso5426_encoded(v) == Some(Seq::<u8>::empty()));
        assert(iso5426_decoded(Seq::<u8>::empty()) =~= v);
    } else {
        let w = v.drop_last();
        assert forall|i: int| 0 <= i < w.len() implies iso5426_kept(#[trigger] w[i]) by {
            assert(w[i] == v[i]);
        }
        lemma_iso5426_round_trips(w);
        let c = v.last();
        assert(iso5426_kept(v[v.len() - 1]));
        let a = iso5426_encoded(w)->0;
        let b = (c as u32) as u8;
        assert((c as u32) % 256 == c as u32);
        assert(b == char_byte(c));
        lemma_char_byte(c);
        assert(iso5426_encoded(v) == Some(a + seq![b]));
        assert((a + seq![b]).drop_last() =~= a);
        assert((a + seq![b]).last() == b);
        assert(iso5426_decoded(a + seq![b]) == iso5426_decoded(a) + seq![c]);
        assert(iso5426_decoded(a) == w);
        assert(w + seq![c] =~= v);
        assert(iso5426_decoded(iso5426_encoded(v)->0) == v);
    }
}

/// The first delimiter from `a` on is at `q` when none lies before it.
proof fn lemma_next_delimiter_at(s: Seq<u8>, a: int, q: int)
    requires
        0 <= a <= q <= s.len(),
        forall|m: int| a <= m < q ==> s[m] != SUBFIELD_DELIMITER,
        q == s.len() || s[q] == SUBFIELD_DELIMITER,
    ensures
        next_delimiter(s, a) == q,
    decreases q - a,
{
    if a < q {
        lemma_next_delimiter_at(s, a + 1, q);
    }
}

/// The subfield stream of readable subfields, up to subfield `j`.
spec fn stream_prefix(sfs: Seq<SubfieldModel>, e: Encoding, j: int) -> Seq<u8> {
    subfields_bytes(sfs.take(j), e)->0
}

proof fn lemma_stream_prefix(sfs: Seq<SubfieldModel>, e: Encoding, j: int)
    requires
        0 <= j <= sfs.len(),
        forall|k: int| 0 <= k < sfs.len() ==> subfield_readable(#[trigger] sfs[k], e),
    ensures
        subfields_bytes(sfs.take(j), e) is Some,
        subfields_bytes(sfs, e)->0.take(stream_prefix(sfs, e, j).len() as int)
            == stream_prefix(sfs, e, j),
        stream_prefix(sfs, e, j).len() <= subfields_bytes(sfs, e)->0.len(),
        j < sfs.len() ==> stream_prefix(sfs, e, j + 1) == stream_prefix(sfs, e, j) + seq![
            SUBFIELD_DELIMITER,
            char_byte(sfs[j].code),
        ] + encode_text(sfs[j].value, e)->0,
    decreases sfs.len() - j,
{
    assert forall|k: int| 0 <= k < sfs.take(j).len() implies subfield_readable(
        #[trigger] sfs.take(j)[k],
        e,
    ) by {
        assert(sfs.take(j)[k] == sfs[k]);
    }
    lemma_subfields_some(sfs.take(j), e);
    if j == sfs.len() {
        assert(sfs.take(j) =~= sfs);
        let p = stream_prefix(sfs, e, j);
        assert(p.take(p.len() as int) =~= p);
    } else {
        lemma_stream_prefix(sfs, e, j + 1);
        assert(sfs.take(j + 1).drop_last() =~= sfs.take(j));
        assert(subfield_readable(sfs[j], e));
        let a = stream_prefix(sfs, e, j);
        let b = stream_prefix(sfs, e, j + 1);
        let whole = subfields_bytes(sfs, e)->0;
        assert(whole.take(a.len() as int) =~= b.take(a.len() as int));
        assert(b.take(a.len() as int) =~= a);
    }
}

proof fn lemma_subfields_some(sfs: Seq<SubfieldModel>, e: Encoding)
    requires
        forall|k: int| 0 <= k < sfs.len() ==> subfield_readable(#[trigger] sfs[k], e),
    ensures
        subfields_bytes(sfs, e) is Some,
    decreases sfs.len(),
{
    if sfs.len() > 0 {
        assert forall|k: int| 0 <= k < sfs.drop_last().len() implies subfield_readable(
            #[trigger] sfs.drop_last()[k],
            e,
        ) by {
            assert(sfs.drop_last()[k] == sfs[k]);
        }
        lemma_subfields_some(sfs.drop_last(), e);
        assert(subfield_readable(sfs[sfs.len() - 1], e));
    }
}

/// Reading the stream from the start of subfield `j` gives the subfields from `j` on.
#[verifier::rlimit(50)]
proof fn lemma_subfields_from(sfs: Seq<SubfieldModel>, e: Encoding, j: int)
    requires
        0 <= j <= sfs.len(),
        forall|k: int| 0 <= k < sfs.len() ==> subfield_readable(#[trigger] sfs[k], e),
    ensures
        subfields_from(
            subfields_bytes(sfs, e)->0,
            stream_prefix(sfs, e, j).len() as int,
            e,
        ) == Ok::<Seq<SubfieldModel>, ParseFault>(sfs.skip(j)),
    decreases sfs.len() - j,
{
    let s = subfields_bytes(sfs, e)->0;
    lemma_stream_prefix(sfs, e, j);
    if j == sfs.len() {
        assert(sfs.take(j) =~= sfs);
        assert(sfs.skip(j) =~= Seq::<SubfieldModel>::empty());
    } else {
        lemma_subfields_from(sfs, e, j + 1);
        lemma_stream_prefix(sfs, e, j + 1);
        let a = stream_prefix(sfs, e, j);
        let b = stream_prefix(sfs, e, j + 1);
        let p = a.len() as int;
        let q = b.len() as int;
        let sf = sfs[j];
        let vb = encode_text(sf.value, e)->0;
        assert(subfield_readable(sf, e));
        assert(s[p] == SUBFIELD_DELIMITER) by {
            assert(s.take(q)[p] == b[p]);
        }
        assert forall|m: int| p + 1 <= m < q implies s[m] != SUBFIELD_DELIMITER by {
            assert(s.take(q)[m] == b[m]);
            if m == p + 1 {
                assert(b[m] == char_byte(sf.code));
                lemma_char_byte(sf.code);
            } else {
                assert(b[m] == vb[m - p - 2]);
            }
        }
        if j + 1 < sfs.len() {
            lemma_stream_prefix(sfs, e, j + 2);
            let c = stream_prefix(sfs, e, j + 2);
            assert(s.take(c.len() as int)[q] == c[q]);
        }
        lemma_next_delimiter_at(s, p + 1, q);
        let chunk = s.subrange(p + 1, q);
        assert(chunk =~= seq![char_byte(sf.code)] + vb) by {
            assert forall|m: int| 0 <= m < chunk.len() implies chunk[m] == (seq![char_byte(sf.code)]
                + vb)[m] by {
                assert(s.take(q)[p + 1 + m] == b[p + 1 + m]);
            }
        }
        assert(chunk.drop_first() =~= vb);
        lemma_char_byte(sf.code);
        assert(seq![SubfieldModel { code: chunk[0] as char, value: sf.value }] + sfs.skip(j + 1)
            =~= sfs.skip(j));
    }
}

/// Readable subfields read back from their stream.
proof fn lemma_subfields_read_back(sfs: Seq<SubfieldModel>, e: Encoding)
    requires
        forall|k: int| 0 <= k < sfs.len() ==> subfield_readable(#[trigger] sfs[k], e),
    ensures
        subfields_bytes(sfs, e) is Some,
        parse_subfields(subfields_bytes(sfs, e)->0, e)
            == Ok::<Seq<SubfieldModel>, ParseFault>(sfs),
{
    lemma_subfields_some(sfs, e);
    lemma_subfields_from(sfs, e, 0);
    lemma_stream_prefix(sfs, e, 0);
    let s = subfields_bytes(sfs, e)->0;
    assert(sfs.take(0) =~= Seq::<SubfieldModel>::empty());
    assert(stream_prefix(sfs, e, 0).len() == 0);
    assert(sfs.skip(0) =~= sfs);
    if sfs.len() > 0 {
        lemma_stream_prefix(sfs, e, 1);
        assert(s.take(stream_prefix(sfs, e, 1).len() as int)[0] == stream_prefix(sfs, e, 1)[0]);
    }
    lemma_next_delimiter_at(s, 0, 0);
}

proof fn lemma_control_image_at(fs: Seq<ControlFieldModel>, e: Encoding, i: int)
    requires
        control_images(fs, e) is Some,
        0 <= i < fs.len(),
    ensures
        control_image(fs[i], e) is Some,
        control_images(fs, e)->0[i] == control_image(fs[i], e)->0,
    decreases fs.len(),
{
    lemma_control_images_len(fs.drop_last(), e);
    if i < fs.len() - 1 {
        lemma_control_image_at(fs.drop_last(), e, i);
    }
}

proof fn lemma_data_image_at(fs: Seq<DataFieldModel>, e: Encoding, i: int)
    requires
        data_images(fs, e) is Some,
        0 <= i < fs.len(),
    ensures
        data_image(fs[i], e) is Some,
        data_images(fs, e)->0[i] == data_image(fs[i], e)->0,
    decreases fs.len(),
{
    lemma_data_images_len(fs.drop_last(), e);
    if i < fs.len() - 1 {
        lemma_data_image_at(fs.drop_last(), e, i);
    }
}

/// The field that entry `i` of a written record stands for.
pub open spec fn field_at(r: RecordModel, i: int) -> ParsedField {
    if i < r.control_fields.len() {
        ParsedField::Control(r.control_fields[i])
    } else {
        ParsedField::Data(r.data_fields[i - r.control_fields.len()])
    }
}

/// Where entry `i` of a written record sits, what it holds, and the run it
/// points at.
#[verifier::rlimit(60)]
proof fn lemma_entry_layout(r: RecordModel, e: Encoding, i: int)
    requires
        encode_record(r, e) is Ok,
        0 <= i < r.control_fields.len() + r.data_fields.len(),
    ensures
        ({
                    let images = field_images(r, e)->0;
            let img = encode_record(r, e)->Ok_0;
            let base = base_address(images) as int;
            let entry = entry_bytes(img, i);
            let len = images[i].len() as int;
            let start = field_start(images, i) as int;
            &&& images.len() == r.control_fields.len() + r.data_fields.len()
            &&& tag_valid(field_tags(r)[i])
            &&& entry.subrange(0, 3) == ascii_bytes(field_tags(r)[i])
            &&& all_digits(entry.subrange(3, 7))
            &&& digits_value(entry.subrange(3, 7)) == len
            &&& all_digits(entry.subrange(7, 12))
            &&& digits_value(entry.subrange(7, 12)) == start
            &&& start + len <= img.len() - base - 1
            &&& img.subrange(base, img.len() as int).subrange(start, start + len) == images[i]
            &&& img.subrange(base, img.len() as int).len() == img.len() - base
        }),
{
    lemma_image_layout(r, e);
    lemma_images_count(r, e);
    let images = field_images(r, e)->0;
    let img = encode_record(r, e)->Ok_0;
    let tags = field_tags(r);
    let base = base_address(images) as int;
    let es = dir_entries(tags, images);
    lemma_dir_entries_width(tags, images);
    lemma_flatten_uniform(es, 12);
    lemma_flatten_element(es, i);
    let dir = directory(tags, images);
    let entry = entry_bytes(img, i);
    assert(entry =~= es[i]) by {
        assert forall|m: int| 0 <= m < 12 implies entry[m] == es[i][m] by {
            assert(img.subrange(24, base)[12 * i + m] == dir[12 * i + m]);
            assert(flatten(es).subrange(12 * i, 12 * i + 12)[m] == flatten(es)[12 * i + m]);
        }
    }
    let tag = tags[i];
    let len = images[i].len() as int;
    let start = field_start(images, i) as int;
    lemma_decimal(len as nat, 4);
    lemma_decimal(start as nat, 5);
    lemma_flatten_element(images, i);
    reveal_with_fuel(pow10, 6);
    assert(entry.subrange(0, 3) =~= ascii_bytes(tag));
    assert(entry.subrange(3, 7) =~= decimal(len as nat, 4));
    assert(entry.subrange(7, 12) =~= decimal(start as nat, 5));
    let area = img.subrange(base, img.len() as int);
    let field = area.subrange(start, start + len);
    assert(field =~= images[i]) by {
        assert forall|m: int| 0 <= m < len implies field[m] == images[i][m] by {
            assert(flatten(images).subrange(start, start + len)[m] == flatten(images)[start + m]);
        }
    }
}

/// The run that entry `i` points at, and where it sits in the record image.
spec fn entry_run(r: RecordModel, e: Encoding, i: int) -> Seq<u8> {
    let images = field_images(r, e)->0;
    let img = encode_record(r, e)->Ok_0;
    let base = base_address(images) as int;
    img.subrange(base, img.len() as int).subrange(
        field_start(images, i) as int,
        (field_start(images, i) + images[i].len()) as int,
    )
}

#[verifier::rlimit(60)]
proof fn lemma_run_is_image(r: RecordModel, e: Encoding, i: int)
    requires
        encode_record(r, e) is Ok,
        0 <= i < r.control_fields.len() + r.data_fields.len(),
    ensures
        i < r.control_fields.len() ==> entry_run(r, e, i) == encode_text(r.control_fields[i].value, e)->0.push(
            FIELD_TERMINATOR,
        ),
        i >= r.control_fields.len() ==> ({
            let f = r.data_fields[i - r.control_fields.len()];
            entry_run(r, e, i) == seq![char_byte(f.ind1), char_byte(f.ind2)] + subfields_bytes(
                f.subfields,
                e,
            )->0 + seq![FIELD_TERMINATOR]
        }),
        field_tags(r)[i] == (if i < r.control_fields.len() {
            r.control_fields[i].tag
        } else {
            r.data_fields[i - r.control_fields.len()].tag
        }),
{
    lemma_entry_layout(r, e, i);
    lemma_image_layout(r, e);
    lemma_images_count(r, e);
    let c = control_images(r.control_fields, e)->0;
    let d = data_images(r.data_fields, e)->0;
    let images = field_images(r, e)->0;
    assert(images == c + d);
    let nc = r.control_fields.len() as int;
    if i < nc {
        lemma_control_image_at(r.control_fields, e, i);
        assert(images[i] == c[i]);
    } else {
        lemma_data_image_at(r.data_fields, e, i - nc);
        assert(images[i] == d[i - nc]);
    }
}

/// The directory of a written record lists the fields in record order,
/// control fields first: entry `i` holds the tag of field `i`, the length of
/// its image, and a start that is where the previous field's image ends.
pub proof fn lemma_directory_order(r: RecordModel, e: Encoding, i: int)
    requires
        encode_record(r, e) is Ok,
        0 <= i < r.control_fields.len() + r.data_fields.len(),
    ensures
        ({
            let images = field_images(r, e)->0;
            let entry = entry_bytes(encode_record(r, e)->Ok_0, i);
            &&& entry.subrange(0, 3) == ascii_bytes(field_tags(r)[i])
            &&& field_tags(r)[i] == (if i < r.control_fields.len() {
                r.control_fields[i].tag
            } else {
                r.data_fields[i - r.control_fields.len()].tag
            })
            &&& digits_value(entry.subrange(3, 7)) == images[i].len()
            &&& digits_value(entry.subrange(7, 12)) == field_start(images, i)
            &&& field_start(images, 0) == 0
            &&& field_start(images, i + 1) == field_start(images, i) + images[i].len()
        }),
{
    lemma_entry_layout(r, e, i);
    let images = field_images(r, e)->0;
    lemma_flatten_element(images, i);
    assert(images.take(0) =~= Seq::<Seq<u8>>::empty());
    let nc = r.control_fields.len() as int;
    if i < nc {
        assert(field_tags(r)[i] == r.control_fields[i].tag);
    } else {
        assert(field_tags(r)[i] == r.data_fields[i - nc].tag);
    }
}

/// Each directory entry of a written record points at a run that ends with a
/// field terminator and reads back as the field the entry was written for.
#[verifier::rlimit(60)]
pub proof fn lemma_directory_consistency(r: RecordModel, e: Encoding, i: int)
    requires
        encode_record(r, e) is Ok,
        record_readable(r, e),
        0 <= i < r.control_fields.len() + r.data_fields.len(),
    ensures
        ({
            let img = encode_record(r, e)->Ok_0;
            let base = base_address(field_images(r, e)->0) as int;
            let entry = entry_bytes(img, i);
            let len = digits_value(entry.subrange(3, 7)) as int;
            let start = digits_value(entry.subrange(7, 12)) as int;
            &&& 0 < len
            &&& base + start + len <= img.len()
            &&& img[base + start + len - 1] == FIELD_TERMINATOR
            &&& parse_entry(img, base, i, e) == Ok::<Option<ParsedField>, ParseFault>(
                Some(field_at(r, i)),
            )
        }),
{
    lemma_entry_layout(r, e, i);
    lemma_run_is_image(r, e, i);
    let images = field_images(r, e)->0;
    let img = encode_record(r, e)->Ok_0;
    let base = base_address(images) as int;
    let nc = r.control_fields.len() as int;
    let tag = field_tags(r)[i];
    let len = images[i].len() as int;
    let start = field_start(images, i) as int;
    lemma_ascii_tag(tag);
    let field = entry_run(r, e, i);
    if i < nc {
        let f = r.control_fields[i];
        assert(value_round_trips(f.value, e));
        assert(field.drop_last() =~= encode_text(f.value, e)->0);
    } else {
        let f = r.data_fields[i - nc];
        assert(data_field_readable(f, e));
        lemma_subfields_read_back(f.subfields, e);
        let sb = subfields_bytes(f.subfields, e)->0;
        let content = field.drop_last();
        assert(content =~= seq![char_byte(f.ind1), char_byte(f.ind2)] + sb);
        assert(content.skip(2) =~= sb);
        lemma_char_byte(f.ind1);
        lemma_char_byte(f.ind2);
    }
    assert(img[base + start + len - 1] == field[len - 1]);
}

/// The fields that the first `k` entries of a written record read back as.
#[verifier::rlimit(60)]
proof fn lemma_entries_read_back(r: RecordModel, e: Encoding, k: int)
    requires
        encode_record(r, e) is Ok,
        record_readable(r, e),
        0 <= k <= r.control_fields.len() + r.data_fields.len(),
    ensures
        ({
            let img = encode_record(r, e)->Ok_0;
            let base = base_address(field_images(r, e)->0) as int;
            let nc = r.control_fields.len() as int;
            parse_entries(img, base, k, e) == Ok::<
                (Seq<ControlFieldModel>, Seq<DataFieldModel>),
                ParseFault,
            >(
                if k <= nc {
                    (r.control_fields.take(k), Seq::empty())
                } else {
                    (r.control_fields, r.data_fields.take(k - nc))
                },
            )
        }),
    decreases k,
{
    let img = encode_record(r, e)->Ok_0;
    let base = base_address(field_images(r, e)->0) as int;
    let nc = r.control_fields.len() as int;
    if k == 0 {
        assert(r.control_fields.take(0) =~= Seq::<ControlFieldModel>::empty());
    } else {
        lemma_entries_read_back(r, e, k - 1);
        lemma_directory_consistency(r, e, k - 1);
        if k - 1 < nc {
            assert(r.control_fields.take(k - 1).push(r.control_fields[k - 1]) =~= r.control_fields.take(k));
        } else {
            if k - 1 == nc {
                assert(r.control_fields.take(nc) =~= r.control_fields);
                assert(r.data_fields.take(0) =~= Seq::<DataFieldModel>::empty());
            }
            assert(r.data_fields.take(k - 1 - nc).push(r.data_fields[k - 1 - nc]) =~= r.data_fields.take(
                k - nc,
            ));
        }
    }
}

/// A written record, followed by anything, is read first and as its read-back form.
#[verifier::rlimit(100)]
proof fn lemma_record_read_back(r: RecordModel, e: Encoding, rest: Seq<u8>)
    requires
        encode_record(r, e) is Ok,
        record_readable(r, e),
    ensures
        ({
            let img = encode_record(r, e)->Ok_0;
            &&& img.len() >= 24
            &&& first_record(img + rest, e) == Ok::<(RecordModel, int), ParseFault>(
                (read_back(r, e), img.len() as int),
            )
        }),
{
    lemma_image_layout(r, e);
    lemma_images_count(r, e);
    let images = field_images(r, e)->0;
    let img = encode_record(r, e)->Ok_0;
    let n = images.len() as int;
    let nc = r.control_fields.len() as int;
    let l = emitted_leader(r.leader, images);
    lemma_leader_round_trip(l);
    let data = img + rest;
    assert(data.take(24) =~= img.take(24));
    assert(data.take(img.len() as int) =~= img);
    let base = base_address(images) as int;
    assert(l.base_address_of_data as int == base);
    assert(l.record_length as int == img.len());
    assert((base - 24) / 12 == n) by (nonlinear_arith)
        requires
            base == 24 + 12 * n + 1,
            n >= 0,
    ;
    lemma_entries_read_back(r, e, n);
    if n == nc {
        assert(r.data_fields.len() == 0);
        assert(r.data_fields =~= Seq::<DataFieldModel>::empty());
        assert(r.control_fields.take(nc) =~= r.control_fields);
    } else {
        assert(r.data_fields.take(n - nc) =~= r.data_fields);
    }
    assert(decode_record(img, l, e) == Ok::<RecordModel, ParseFault>(read_back(r, e)));
}

#[verifier::rlimit(60)]
proof fn lemma_encode_records_front(rs: Seq<RecordModel>, e: Encoding)
    requires
        rs.len() > 0,
        encode_records(rs, e) is Ok,
    ensures
        encode_record(rs[0], e) is Ok,
        encode_records(rs.drop_first(), e) is Ok,
        encode_records(rs, e)->Ok_0 == encode_record(rs[0], e)->Ok_0 + encode_records(
            rs.drop_first(),
            e,
        )->Ok_0,
    decreases rs.len(),
{
    if rs.len() == 1 {
        assert(rs.drop_last() =~= Seq::<RecordModel>::empty());
        assert(rs.drop_first() =~= Seq::<RecordModel>::empty());
        assert(encode_records(rs, e)->Ok_0 =~= encode_record(rs[0], e)->Ok_0 + Seq::<u8>::empty());
    } else {
        lemma_encode_records_front(rs.drop_last(), e);
        assert(rs.drop_first().drop_last() =~= rs.drop_last().drop_first());
        assert(rs.drop_first().last() == rs.last());
        assert(rs.drop_last()[0] == rs[0]);
        let a = encode_record(rs[0], e)->Ok_0;
        let b = encode_records(rs.drop_last().drop_first(), e)->Ok_0;
        let c = encode_record(rs.last(), e)->Ok_0;
        assert(encode_records(rs, e)->Ok_0 =~= a + (b + c));
    }
}

/// Records written as ISO 2709 read back in order, each with the same control
/// and data fields and the leader that the writer emitted (its record length
/// and base address computed, every other position kept), provided the writer
/// accepted them and each record is readable in the encoding (under UTF-8 every
/// value reads back, see `lemma_utf8_round_trips`; under Latin-1 every Latin-1
/// value, see `lemma_latin1_round_trips`; under ISO 5426 every value of kept
/// characters, see `lemma_iso5426_round_trips`).
#[verifier::rlimit(100)]
pub proof fn lemma_binary_round_trip(rs: Seq<RecordModel>, e: Encoding)
    requires
        encode_records(rs, e) is Ok,
        forall|i: int| 0 <= i < rs.len() ==> record_readable(#[trigger] rs[i], e),
    ensures
        decode_records(encode_records(rs, e)->Ok_0, e) == Ok::<
            Seq<RecordModel>,
            ParseFault,
        >(rs.map_values(|r: RecordModel| read_back(r, e))),
    decreases rs.len(),
{
    if rs.len() == 0 {
        reveal(decode_records);
        assert(rs.map_values(|r: RecordModel| read_back(r, e)) =~= Seq::<RecordModel>::empty());
    } else {
        lemma_encode_records_front(rs, e);
        let rest_rs = rs.drop_first();
        lemma_readable_tail(rs, e);
        lemma_binary_round_trip(rest_rs, e);
        let img = encode_record(rs[0], e)->Ok_0;
        let rest = encode_records(rest_rs, e)->Ok_0;
        lemma_record_read_back(rs[0], e, rest);
        let data = img + rest;
        assert(data.skip(img.len() as int) =~= rest);
        lemma_decode_records_step(data, e, read_back(rs[0], e), img.len() as int);
        lemma_read_back_cons(rs, e);
    }
}

proof fn lemma_readable_tail(rs: Seq<RecordModel>, e: Encoding)
    requires
        rs.len() > 0,
        forall|i: int| 0 <= i < rs.len() ==> record_readable(#[trigger] rs[i], e),
    ensures
        record_readable(rs[0], e),
        forall|i: int| 0 <= i < rs.drop_first().len() ==> record_readable(#[trigger] rs.drop_first()[i], e),
{
    assert forall|i: int| 0 <= i < rs.drop_first().len() implies record_readable(
        #[trigger] rs.drop_first()[i],
        e,
    ) by {
        assert(rs.drop_first()[i] == rs[i + 1]);
    }
}

proof fn lemma_read_back_cons(rs: Seq<RecordModel>, e: Encoding)
    requires
        rs.len() > 0,
    ensures
        seq![read_back(rs[0], e)] + rs.drop_first().map_values(
            |r: RecordModel| read_back(r, e),
        ) == rs.map_values(|r: RecordModel| read_back(r, e)),
{
    assert(seq![read_back(rs[0], e)] + rs.drop_first().map_values(
        |r: RecordModel| read_back(r, e),
    ) =~= rs.map_values(|r: RecordModel| read_back(r, e)));
}

/// Writing and reading back keeps every record's control fields and data
/// fields in the order they had, and the records in theirs.
pub proof fn lemma_order_preserved(rs: Seq<RecordModel>, e: Encoding, i: int)
    requires
        encode_records(rs, e) is Ok,
        forall|k: int| 0 <= k < rs.len() ==> record_readable(#[trigger] rs[k], e),
        0 <= i < rs.len(),
    ensures
        decode_records(encode_records(rs, e)->Ok_0, e) matches Ok(back)
            && back.len() == rs.len() && back[i].control_fields == rs[i].control_fields
            && back[i].data_fields == rs[i].data_fields,
{
    lemma_binary_round_trip(rs, e);
}

} // verus!
