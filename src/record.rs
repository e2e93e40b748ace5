use vstd::prelude::*;

verus! {

/// Field terminator, also closing the directory.
pub const FIELD_TERMINATOR: u8 = 0x1E;

/// Record terminator.
pub const RECORD_TERMINATOR: u8 = 0x1D;

/// Subfield delimiter.
pub const SUBFIELD_DELIMITER: u8 = 0x1F;

/// A MARC record: the leader, then control fields and data fields in order.
#[derive(Debug, Clone, PartialEq)]
pub struct Record {
    pub leader: Leader,
    pub control_fields: Vec<ControlField>,
    pub data_fields: Vec<DataField>,
}

/// The 24-byte record header; digit positions are held as integers, the
/// others as characters.
#[derive(Debug, Clone, Copy, PartialEq, Eq, Structural)]
pub struct Leader {
    pub record_length: u32,
    pub record_status: char,
    pub record_type: char,
    pub bibliographic_level: char,
    pub type_of_control: char,
    pub character_coding_scheme: char,
    pub indicator_count: u8,
    pub subfield_code_count: u8,
    pub base_address_of_data: u32,
    pub encoding_level: char,
    pub descriptive_cataloging_form: char,
    pub multipart_resource_record_level: char,
    pub length_of_length_of_field_portion: u8,
    pub length_of_starting_character_position_portion: u8,
    pub length_of_implementation_defined_portion: u8,
    pub undefined: char,
}

/// A control field (tag below "010"): a tag and an unstructured value.
#[derive(Debug, Clone, PartialEq, Eq)]
pub struct ControlField {
    pub tag: String,
    pub value: String,
}

/// A data field (tag "010" and above): two indicators and a list of subfields.
#[derive(Debug, Clone, PartialEq)]
pub struct DataField {
    pub tag: String,
    pub ind1: char,
    pub ind2: char,
    pub subfields: Vec<Subfield>,
}

/// A subfield of a data field: a one-character code and a value.
#[derive(Debug, Clone, PartialEq, Eq)]
pub struct Subfield {
    pub code: char,
    pub value: String,
}

/// The mathematical value of a subfield.
pub struct SubfieldModel {
    pub code: char,
    pub value: Seq<char>,
}

/// The mathematical value of a control field.
pub struct ControlFieldModel {
    pub tag: Seq<char>,
    pub value: Seq<char>,
}

/// The mathematical value of a data field.
pub struct DataFieldModel {
    pub tag: Seq<char>,
    pub ind1: char,
    pub ind2: char,
    pub subfields: Seq<SubfieldModel>,
}

/// The mathematical value of a record.
pub struct RecordModel {
    pub leader: Leader,
    pub control_fields: Seq<ControlFieldModel>,
    pub data_fields: Seq<DataFieldModel>,
}

impl View for Subfield {
    type V = SubfieldModel;

    open spec fn view(&self) -> SubfieldModel {
        SubfieldModel { code: self.code, value: self.value@ }
    }
}

impl View for ControlField {
    type V = ControlFieldModel;

    open spec fn view(&self) -> ControlFieldModel {
        ControlFieldModel { tag: self.tag@, value: self.value@ }
    }
}

impl View for DataField {
    type V = DataFieldModel;

    open spec fn view(&self) -> DataFieldModel {
        DataFieldModel {
            tag: self.tag@,
            ind1: self.ind1,
            ind2: self.ind2,
            subfields: self.subfields@.map_values(|s: Subfield| s@),
        }
    }
}

impl View for Record {
    type V = RecordModel;

    open spec fn view(&self) -> RecordModel {
        RecordModel {
            leader: self.leader,
            control_fields: self.control_fields@.map_values(|f: ControlField| f@),
            data_fields: self.data_fields@.map_values(|f: DataField| f@),
        }
    }
}

/// The models of a sequence of records.
pub open spec fn records_model(rs: Seq<Record>) -> Seq<RecordModel> {
    rs.map_values(|r: Record| r@)
}

pub open spec fn is_digit(b: u8) -> bool {
    0x30 <= b <= 0x39
}

pub open spec fn all_digits(s: Seq<u8>) -> bool {
    forall|i: int| 0 <= i < s.len() ==> is_digit(#[trigger] s[i])
}

/// The number that a run of decimal digits spells.
pub open spec fn digits_value(s: Seq<u8>) -> nat
    decreases s.len(),
{
    if s.len() == 0 {
        0
    } else {
        digits_value(s.drop_last()) * 10 + (s.last() - 0x30) as nat
    }
}

pub open spec fn pow10(n: nat) -> nat
    decreases n,
{
    if n == 0 {
        1
    } else {
        10 * pow10((n - 1) as nat)
    }
}

/// `n` written with exactly `width` decimal digits, zero-padded on the left
/// (only the low `width` digits when `n` is wider).
pub open spec fn decimal(n: nat, width: nat) -> Seq<u8>
    decreases width,
{
    if width == 0 {
        Seq::empty()
    } else {
        decimal(n / 10, (width - 1) as nat).push((0x30 + n % 10) as u8)
    }
}

/// The byte written for a character position: the low eight bits of its code point.
pub open spec fn char_byte(c: char) -> u8 {
    ((c as u32) % 256) as u8
}

/// The byte written for a single-digit count.
pub open spec fn count_byte(n: u8) -> u8 {
    ((0x30 + n) % 256) as u8
}

/// Whether 24 bytes form a leader: digits where the layout asks for them.
pub open spec fn leader_bytes_valid(b: Seq<u8>) -> bool {
    &&& b.len() == 24
    &&& all_digits(b.subrange(0, 5))
    &&& all_digits(b.subrange(12, 17))
    &&& is_digit(b[10])
    &&& is_digit(b[11])
    &&& is_digit(b[20])
    &&& is_digit(b[21])
    &&& is_digit(b[22])
}

/// The leader that 24 valid bytes describe.
pub open spec fn leader_from_bytes(b: Seq<u8>) -> Leader {
    Leader {
        record_length: digits_value(b.subrange(0, 5)) as u32,
        record_status: b[5] as char,
        record_type: b[6] as char,
        bibliographic_level: b[7] as char,
        type_of_control: b[8] as char,
        character_coding_scheme: b[9] as char,
        indicator_count: (b[10] - 0x30) as u8,
        subfield_code_count: (b[11] - 0x30) as u8,
        base_address_of_data: digits_value(b.subrange(12, 17)) as u32,
        encoding_level: b[17] as char,
        descriptive_cataloging_form: b[18] as char,
        multipart_resource_record_level: b[19] as char,
        length_of_length_of_field_portion: (b[20] - 0x30) as u8,
        length_of_starting_character_position_portion: (b[21] - 0x30) as u8,
        length_of_implementation_defined_portion: (b[22] - 0x30) as u8,
        undefined: b[23] as char,
    }
}

impl Leader {
    /// The 24 bytes that stand for this leader.
    pub open spec fn spec_bytes(self) -> Seq<u8> {
        decimal(self.record_length as nat, 5) + seq![
            char_byte(self.record_status),
            char_byte(self.record_type),
            char_byte(self.bibliographic_level),
            char_byte(self.type_of_control),
            char_byte(self.character_coding_scheme),
            count_byte(self.indicator_count),
            count_byte(self.subfield_code_count),
        ] + decimal(self.base_address_of_data as nat, 5) + seq![
            char_byte(self.encoding_level),
            char_byte(self.descriptive_cataloging_form),
            char_byte(self.multipart_resource_record_level),
            count_byte(self.length_of_length_of_field_portion),
            count_byte(self.length_of_starting_character_position_portion),
            count_byte(self.length_of_implementation_defined_portion),
            char_byte(self.undefined),
        ]
    }

    /// A leader that its bytes can carry: the lengths have at most five
    /// digits, the counts are single digits and every character position
    /// holds a one-byte character.
    pub open spec fn well_formed(self) -> bool {
        &&& self.record_length < 100000
        &&& self.base_address_of_data < 100000
        &&& self.positions_carried()
    }

    /// The positions other than the two lengths are ones its bytes can carry:
    /// the counts are single digits and every character position holds a
    /// one-byte character.
    pub open spec fn positions_carried(self) -> bool {
        &&& self.indicator_count <= 9
        &&& self.subfield_code_count <= 9
        &&& self.length_of_length_of_field_portion <= 9
        &&& self.length_of_starting_character_position_portion <= 9
        &&& self.length_of_implementation_defined_portion <= 9
        &&& (self.record_status as u32) < 256
        &&& (self.record_type as u32) < 256
        &&& (self.bibliographic_level as u32) < 256
        &&& (self.type_of_control as u32) < 256
        &&& (self.character_coding_scheme as u32) < 256
        &&& (self.encoding_level as u32) < 256
        &&& (self.descriptive_cataloging_form as u32) < 256
        &&& (self.multipart_resource_record_level as u32) < 256
        &&& (self.undefined as u32) < 256
    }

    /// Reads a leader from exactly 24 bytes.
    pub fn from_bytes(data: &[u8]) -> (r: Result<Leader, String>)
        ensures
            r.is_ok() <==> leader_bytes_valid(data@),
            r matches Ok(l) ==> l == leader_from_bytes(data@),
    {
        if data.len() != 24 {
            return Err("leader must be 24 bytes".to_owned());
        }
        let record_length = parse_five_digits(&data[0..5])?;
        let base_address = parse_five_digits(&data[12..17])?;
        if !is_digit_byte(data[10]) || !is_digit_byte(data[11]) || !is_digit_byte(data[20])
            || !is_digit_byte(data[21]) || !is_digit_byte(data[22]) {
            return Err("leader count positions must be digits".to_owned());
        }
        Ok(Leader {
            record_length,
            record_status: data[5] as char,
            record_type: data[6] as char,
            bibliographic_level: data[7] as char,
            type_of_control: data[8] as char,
            character_coding_scheme: data[9] as char,
            indicator_count: data[10] - 0x30,
            subfield_code_count: data[11] - 0x30,
            base_address_of_data: base_address,
            encoding_level: data[17] as char,
            descriptive_cataloging_form: data[18] as char,
            multipart_resource_record_level: data[19] as char,
            length_of_length_of_field_portion: data[20] - 0x30,
            length_of_starting_character_position_portion: data[21] - 0x30,
            length_of_implementation_defined_portion: data[22] - 0x30,
            undefined: data[23] as char,
        })
    }

    /// Writes the leader as 24 bytes, the two lengths zero-padded to five
    /// digits (their low five digits when they are wider).
    pub fn to_bytes(&self) -> (r: Vec<u8>)
        ensures
            r@ == self.spec_bytes(),
    {
        let mut bytes: Vec<u8> = Vec::with_capacity(24);
        push_decimal(&mut bytes, self.record_length, 5);
        bytes.push(byte_of_char(self.record_status));
        bytes.push(byte_of_char(self.record_type));
        bytes.push(byte_of_char(self.bibliographic_level));
        bytes.push(byte_of_char(self.type_of_control));
        bytes.push(byte_of_char(self.character_coding_scheme));
        bytes.push(byte_of_count(self.indicator_count));
        bytes.push(byte_of_count(self.subfield_code_count));
        push_decimal(&mut bytes, self.base_address_of_data, 5);
        bytes.push(byte_of_char(self.encoding_level));
        bytes.push(byte_of_char(self.descriptive_cataloging_form));
        bytes.push(byte_of_char(self.multipart_resource_record_level));
        bytes.push(byte_of_count(self.length_of_length_of_field_portion));
        bytes.push(byte_of_count(self.length_of_starting_character_position_portion));
        bytes.push(byte_of_count(self.length_of_implementation_defined_portion));
        bytes.push(byte_of_char(self.undefined));
        proof {
            assert(bytes@ =~= self.spec_bytes());
        }
        bytes
    }
}

pub fn is_digit_byte(b: u8) -> (r: bool)
    ensures
        r == is_digit(b),
{
    0x30 <= b && b <= 0x39
}

pub(crate) fn byte_of_char(c: char) -> (r: u8)
    ensures
        r == char_byte(c),
{
    let v: u32 = c as u32;
    (v % 256) as u8
}

fn byte_of_count(n: u8) -> (r: u8)
    ensures
        r == count_byte(n),
{
    let v: u32 = 0x30u32 + n as u32;
    (v % 256) as u8
}

/// Reads a five-digit number.
fn parse_five_digits(bytes: &[u8]) -> (r: Result<u32, String>)
    requires
        bytes@.len() == 5,
    ensures
        r.is_ok() <==> all_digits(bytes@),
        r matches Ok(v) ==> v as nat == digits_value(bytes@),
{
    match parse_decimal(bytes, 99999) {
        Some(v) => Ok(v),
        None => {
            proof {
                if all_digits(bytes@) {
                    lemma_digits_value_bound(bytes@);
                    lemma_pow10_5();
                }
            }
            Err("leader length positions must be digits".to_owned())
        },
    }
}

/// A run of `n` digits spells a number below `10^n`.
pub proof fn lemma_digits_value_bound(s: Seq<u8>)
    requires
        all_digits(s),
    ensures
        digits_value(s) < pow10(s.len()),
    decreases s.len(),
{
    if s.len() > 0 {
        assert(all_digits(s.drop_last())) by {
            assert forall|i: int| 0 <= i < s.drop_last().len() implies is_digit(
                #[trigger] s.drop_last()[i],
            ) by {
                assert(s.drop_last()[i] == s[i]);
            }
        }
        lemma_digits_value_bound(s.drop_last());
        assert(is_digit(s[s.len() - 1]));
    }
}

/// Reads a run of decimal digits whose value is at most `max`.
pub fn parse_decimal(bytes: &[u8], max: u32) -> (r: Option<u32>)
    ensures
        r.is_some() <==> all_digits(bytes@) && digits_value(bytes@) <= max,
        r matches Some(v) ==> v as nat == digits_value(bytes@),
{
    let mut value: u32 = 0;
    let mut i: usize = 0;
    while i < bytes.len()
        invariant
            0 <= i <= bytes.len(),
            all_digits(bytes@.subrange(0, i as int)),
            value as nat == digits_value(bytes@.subrange(0, i as int)),
            value <= max,
        decreases bytes.len() - i,
    {
        let b = bytes[i];
        proof {
            assert(bytes@.subrange(0, i + 1).drop_last() =~= bytes@.subrange(0, i as int));
        }
        if !is_digit_byte(b) {
            proof {
                lemma_digits_prefix(bytes@, i as int);
            }
            return None;
        }
        let next: u64 = value as u64 * 10 + (b - 0x30) as u64;
        if next > max as u64 {
            proof {
                lemma_digits_prefix_bound(bytes@, i + 1);
            }
            return None;
        }
        value = next as u32;
        i = i + 1;
    }
    proof {
        assert(bytes@.subrange(0, i as int) =~= bytes@);
    }
    Some(value)
}

/// A non-digit anywhere leaves the run short of all digits.
proof fn lemma_digits_prefix(s: Seq<u8>, i: int)
    requires
        0 <= i < s.len(),
        !is_digit(s[i]),
    ensures
        !all_digits(s),
{
}

/// The value of a run of digits is at least that of each of its prefixes.
proof fn lemma_digits_prefix_bound(s: Seq<u8>, k: int)
    requires
        0 <= k <= s.len(),
        all_digits(s.subrange(0, k)),
    ensures
        all_digits(s) ==> digits_value(s) >= digits_value(s.subrange(0, k)),
    decreases s.len() - k,
{
    if k < s.len() && all_digits(s) {
        assert(s.subrange(0, k + 1).drop_last() =~= s.subrange(0, k));
        lemma_digits_prefix_bound(s, k + 1);
    }
    if k == s.len() {
        assert(s.subrange(0, k) =~= s);
    }
}

/// Appends `n` as exactly `width` zero-padded decimal digits.
pub fn push_decimal(out: &mut Vec<u8>, n: u32, width: usize)
    ensures
        final(out)@ == old(out)@ + decimal(n as nat, width as nat),
    decreases width,
{
    if width == 0 {
        assert(old(out)@ + decimal(n as nat, 0) =~= old(out)@);
        return;
    }
    push_decimal(out, n / 10, width - 1);
    out.push((0x30 + n % 10) as u8);
    assert(final(out)@ =~= old(out)@ + decimal(n as nat, width as nat));
}

/// `decimal` writes `width` digits, and reads back as `n` when `n` fits.
pub proof fn lemma_decimal(n: nat, width: nat)
    ensures
        decimal(n, width).len() == width,
        all_digits(decimal(n, width)),
        n < pow10(width) ==> digits_value(decimal(n, width)) == n,
    decreases width,
{
    if width > 0 {
        lemma_decimal(n / 10, (width - 1) as nat);
        let d = decimal(n, width);
        assert(d.drop_last() =~= decimal(n / 10, (width - 1) as nat));
        assert forall|i: int| 0 <= i < d.len() implies is_digit(#[trigger] d[i]) by {
            if i < d.len() - 1 {
                assert(d[i] == decimal(n / 10, (width - 1) as nat)[i]);
            }
        }
        if n < pow10(width) {
            assert(n / 10 < pow10((width - 1) as nat));
        }
    }
}

pub proof fn lemma_pow10_5()
    ensures
        pow10(5) == 100000,
{
    reveal_with_fuel(pow10, 6);
}

/// A copy of a record, field by field.
pub fn copy_record(r: &Record) -> (c: Record)
    ensures
        c@ == r@,
{
    let mut control_fields: Vec<ControlField> = Vec::new();
    let mut i: usize = 0;
    while i < r.control_fields.len()
        invariant
            0 <= i <= r.control_fields@.len(),
            control_fields@.map_values(|f: ControlField| f@) == r.control_fields@.take(
                i as int,
            ).map_values(|f: ControlField| f@),
        decreases r.control_fields.len() - i,
    {
        let f = &r.control_fields[i];
        let copy = ControlField { tag: f.tag.clone(), value: f.value.clone() };
        let ghost prev = control_fields@;
        let ghost cm = copy@;
        control_fields.push(copy);
        proof {
            assert(cm == r.control_fields@[i as int]@);
            assert(control_fields@.map_values(|f: ControlField| f@) =~= prev.map_values(
                |f: ControlField| f@,
            ).push(cm));
            assert(r.control_fields@.take(i + 1).map_values(|f: ControlField| f@)
                =~= r.control_fields@.take(i as int).map_values(|f: ControlField| f@).push(cm));
        }
        i = i + 1;
    }
    let mut data_fields: Vec<DataField> = Vec::new();
    let mut j: usize = 0;
    while j < r.data_fields.len()
        invariant
            0 <= j <= r.data_fields@.len(),
            data_fields@.map_values(|f: DataField| f@) == r.data_fields@.take(j as int).map_values(
                |f: DataField| f@,
            ),
        decreases r.data_fields.len() - j,
    {
        let copy = copy_data_field(&r.data_fields[j]);
        let ghost prev = data_fields@;
        let ghost cm = copy@;
        data_fields.push(copy);
        proof {
            assert(data_fields@.map_values(|f: DataField| f@) =~= prev.map_values(
                |f: DataField| f@,
            ).push(cm));
            assert(r.data_fields@.take(j + 1).map_values(|f: DataField| f@)
                =~= r.data_fields@.take(j as int).map_values(|f: DataField| f@).push(cm));
        }
        j = j + 1;
    }
    proof {
        assert(r.control_fields@.take(i as int) =~= r.control_fields@);
        assert(r.data_fields@.take(j as int) =~= r.data_fields@);
    }
    Record { leader: r.leader, control_fields, data_fields }
}

fn copy_data_field(f: &DataField) -> (c: DataField)
    ensures
        c@ == f@,
{
    let mut subfields: Vec<Subfield> = Vec::new();
    let mut k: usize = 0;
    while k < f.subfields.len()
        invariant
            0 <= k <= f.subfields@.len(),
            subfields@.map_values(|s: Subfield| s@) == f.subfields@.take(k as int).map_values(
                |s: Subfield| s@,
            ),
        decreases f.subfields.len() - k,
    {
        let s = &f.subfields[k];
        let copy = Subfield { code: s.code, value: s.value.clone() };
        let ghost prev = subfields@;
        let ghost cm = copy@;
        subfields.push(copy);
        proof {
            assert(cm == f.subfields@[k as int]@);
            assert(subfields@.map_values(|s: Subfield| s@) =~= prev.map_values(|s: Subfield| s@).push(
                cm,
            ));
            assert(f.subfields@.take(k + 1).map_values(|s: Subfield| s@) =~= f.subfields@.take(
                k as int,
            ).map_values(|s: Subfield| s@).push(cm));
        }
        k = k + 1;
    }
    proof {
        assert(f.subfields@.take(k as int) =~= f.subfields@);
    }
    DataField { tag: f.tag.clone(), ind1: f.ind1, ind2: f.ind2, subfields }
}

/// Writing a leader and reading its bytes back gives the same leader.
pub proof fn lemma_leader_round_trip(l: Leader)
    requires
        l.well_formed(),
    ensures
        leader_bytes_valid(l.spec_bytes()),
        leader_from_bytes(l.spec_bytes()) == l,
{
    let b = l.spec_bytes();
    lemma_decimal(l.record_length as nat, 5);
    lemma_decimal(l.base_address_of_data as nat, 5);
    lemma_pow10_5();
    assert(b.subrange(0, 5) =~= decimal(l.record_length as nat, 5));
    assert(b.subrange(12, 17) =~= decimal(l.base_address_of_data as nat, 5));
    assert((b[5] as char) == l.record_status);
    assert(leader_from_bytes(b) =~= l);
}

} // verus!
