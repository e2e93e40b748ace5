use crate::format::FormatEncoding;
use crate::parser::{ParseError, ParseFault};
use crate::record::{
    leader_bytes_valid, leader_from_bytes, records_model, ControlField, ControlFieldModel,
    DataField, DataFieldModel, Leader, Record, RecordModel, Subfield, SubfieldModel,
};
use crate::text::{chars_of, str_eq, string_from_utf8};
use quick_xml::events::{BytesStart, Event};
use quick_xml::Reader;
use vstd::prelude::*;
use vstd::slice::slice_to_vec;
use vstd::string::StringSliceAdditionalSpecFns;
use vstd::utf8::{decode_utf8, encode_utf8, valid_utf8};

verus! {

/// quick_xml's pull parser, carried through the reading loop unopened.
#[verifier::external_type_specification]
#[verifier::external_body]
#[verifier::reject_recursive_types(R)]
pub struct ExReader<R>(Reader<R>);

/// An event of quick_xml's pull parser with names and text as plain strings:
/// an element start or empty element (local name, and the attribute part of
/// the tag as written), an element end (local name), text with its entities
/// resolved, anything else, the end of the document, or a failure to read.
pub enum XmlToken {
    Start(String, String),
    Empty(String, String),
    End(String),
    Text(String),
    Other,
    Eof,
    Error,
}

pub enum XmlTokenModel {
    Start(Seq<char>, Seq<char>),
    Empty(Seq<char>, Seq<char>),
    End(Seq<char>),
    Text(Seq<char>),
    Other,
    Eof,
    Error,
}

impl View for XmlToken {
    type V = XmlTokenModel;

    open spec fn view(&self) -> XmlTokenModel {
        match self {
            XmlToken::Start(n, a) => XmlTokenModel::Start(n@, a@),
            XmlToken::Empty(n, a) => XmlTokenModel::Empty(n@, a@),
            XmlToken::End(n) => XmlTokenModel::End(n@),
            XmlToken::Text(t) => XmlTokenModel::Text(t@),
            XmlToken::Other => XmlTokenModel::Other,
            XmlToken::Eof => XmlTokenModel::Eof,
            XmlToken::Error => XmlTokenModel::Error,
        }
    }
}

pub open spec fn is_last_token(t: XmlTokenModel) -> bool {
    t is Eof || t is Error
}

/// A run of tokens that ends at its first end of document or failure.
pub open spec fn ends_once(ts: Seq<XmlTokenModel>) -> bool {
    &&& ts.len() > 0
    &&& is_last_token(ts.last())
    &&& forall|i: int| 0 <= i < ts.len() - 1 ==> !is_last_token(#[trigger] ts[i])
}

/// The tokens that quick_xml's `Reader` reads from a text, one `read_event`
/// after another, up to and including the end of the document or the first
/// failure.
pub uninterp spec fn xml_tokens(text: Seq<char>) -> Seq<XmlTokenModel>;

/// The tokens that a reader has still to give.
pub uninterp spec fn unread_tokens(reader: Reader<&[u8]>) -> Seq<XmlTokenModel>;

/// What quick_xml finds for the attribute `key` in the attribute part of a
/// start tag: `None` when the attributes are malformed or the value cannot be
/// unescaped, `Some(None)` when there is no such attribute.
pub uninterp spec fn attribute_value(attributes: Seq<char>, key: Seq<char>) -> Option<Option<Seq<char>>>;

/// Relies on quick_xml's `Reader::from_str`: a pull parser over the text. A
/// reader over a slice reads it once, ending with `Event::Eof`.
#[verifier::external_body]
fn xml_reader(text: &str) -> (r: Reader<&[u8]>)
    ensures
        unread_tokens(r) == xml_tokens(text@),
        ends_once(unread_tokens(r)),
{
    Reader::from_str(text)
}

/// Relies on quick_xml's `Reader::read_event`, `BytesStart::local_name`,
/// `BytesStart::attributes_raw`, `BytesEnd::local_name` and
/// `BytesText::unescape`: the next token of the document.
#[verifier::external_body]
fn read_xml_event(reader: &mut Reader<&[u8]>) -> (r: XmlToken)
    requires
        unread_tokens(*old(reader)).len() > 0,
    ensures
        r@ == unread_tokens(*old(reader))[0],
        !is_last_token(r@) ==> unread_tokens(*final(reader)) == unread_tokens(
            *old(reader),
        ).drop_first(),
{
    let text = |b: &[u8]| String::from_utf8_lossy(b).into_owned();
    match reader.read_event() {
        Ok(Event::Start(e)) => XmlToken::Start(text(e.local_name().as_ref()), text(e.attributes_raw())),
        Ok(Event::Empty(e)) => XmlToken::Empty(text(e.local_name().as_ref()), text(e.attributes_raw())),
        Ok(Event::End(e)) => XmlToken::End(text(e.local_name().as_ref())),
        Ok(Event::Text(e)) => e.unescape().map_or(XmlToken::Error, |t| XmlToken::Text(t.into_owned())),
        Ok(Event::Eof) => XmlToken::Eof,
        Ok(_) => XmlToken::Other,
        Err(_) => XmlToken::Error,
    }
}

pub open spec fn opt_opt_chars(o: Option<Option<String>>) -> Option<Option<Seq<char>>> {
    match o {
        Some(Some(s)) => Some(Some(s@)),
        Some(None) => Some(None),
        None => None,
    }
}

/// Relies on quick_xml's `BytesStart::from_content`, `BytesStart::try_get_attribute`
/// and `Attribute::unescape_value`: the attribute `key` of a tag's attribute part.
#[verifier::external_body]
fn attribute_in(attributes: &str, key: &str) -> (r: Option<Option<String>>)
    ensures
        opt_opt_chars(r) == attribute_value(attributes@, key@),
{
    match BytesStart::from_content(attributes, 0).try_get_attribute(key) {
        Ok(Some(a)) => a.unescape_value().ok().map(|v| Some(v.into_owned())),
        Ok(None) => Some(None),
        Err(_) => None,
    }
}

/// A MARCXML event: an element start with the attributes that MARCXML reads,
/// an element end, character data, or anything else.
pub enum MarcXmlEvent {
    Start {
        name: String,
        tag: Option<String>,
        ind1: Option<String>,
        ind2: Option<String>,
        code: Option<String>,
    },
    End { name: String },
    Text { text: String },
    Other,
}

pub enum MarcXmlEventModel {
    Start {
        name: Seq<char>,
        tag: Option<Seq<char>>,
        ind1: Option<Seq<char>>,
        ind2: Option<Seq<char>>,
        code: Option<Seq<char>>,
    },
    End { name: Seq<char> },
    Text { text: Seq<char> },
    Other,
}

pub open spec fn opt_chars(o: Option<String>) -> Option<Seq<char>> {
    match o {
        Some(s) => Some(s@),
        None => None,
    }
}

impl View for MarcXmlEvent {
    type V = MarcXmlEventModel;

    open spec fn view(&self) -> MarcXmlEventModel {
        match self {
            MarcXmlEvent::Start { name, tag, ind1, ind2, code } => MarcXmlEventModel::Start {
                name: name@,
                tag: opt_chars(*tag),
                ind1: opt_chars(*ind1),
                ind2: opt_chars(*ind2),
                code: opt_chars(*code),
            },
            MarcXmlEvent::End { name } => MarcXmlEventModel::End { name: name@ },
            MarcXmlEvent::Text { text } => MarcXmlEventModel::Text { text: text@ },
            MarcXmlEvent::Other => MarcXmlEventModel::Other,
        }
    }
}

/// What the reader has gathered so far: finished records, and the record,
/// data field and subfield being read with the pending tag and text.
pub struct XmlState {
    pub records: Vec<Record>,
    pub record: Option<Record>,
    pub field: Option<DataField>,
    pub code: Option<char>,
    pub tag: String,
    pub value: String,
    pub in_collection: bool,
}

pub struct XmlStateModel {
    pub records: Seq<RecordModel>,
    pub record: Option<RecordModel>,
    pub field: Option<DataFieldModel>,
    pub code: Option<char>,
    pub tag: Seq<char>,
    pub value: Seq<char>,
    pub in_collection: bool,
}

impl View for XmlState {
    type V = XmlStateModel;

    open spec fn view(&self) -> XmlStateModel {
        XmlStateModel {
            records: records_model(self.records@),
            record: match self.record {
                Some(r) => Some(r@),
                None => None,
            },
            field: match self.field {
                Some(f) => Some(f@),
                None => None,
            },
            code: self.code,
            tag: self.tag@,
            value: self.value@,
            in_collection: self.in_collection,
        }
    }
}

/// The leader a `<record>` starts with, before its `<leader>` is read.
pub open spec fn initial_leader() -> Leader {
    Leader {
        record_length: 0,
        record_status: ' ',
        record_type: ' ',
        bibliographic_level: ' ',
        type_of_control: ' ',
        character_coding_scheme: ' ',
        indicator_count: 2,
        subfield_code_count: 2,
        base_address_of_data: 0,
        encoding_level: ' ',
        descriptive_cataloging_form: ' ',
        multipart_resource_record_level: ' ',
        length_of_length_of_field_portion: 4,
        length_of_starting_character_position_portion: 5,
        length_of_implementation_defined_portion: 0,
        undefined: ' ',
    }
}

pub open spec fn initial_state() -> XmlStateModel {
    XmlStateModel {
        records: Seq::empty(),
        record: None,
        field: None,
        code: None,
        tag: Seq::empty(),
        value: Seq::empty(),
        in_collection: false,
    }
}

/// An indicator attribute's character: its first, or a space when it is
/// missing or empty.
pub open spec fn indicator(a: Option<Seq<char>>) -> char {
    match a {
        Some(s) => if s.len() > 0 {
            s[0]
        } else {
            ' '
        },
        None => ' ',
    }
}

/// How one event changes what the reader has gathered.
pub open spec fn xml_step(s: XmlStateModel, ev: MarcXmlEventModel) -> Result<XmlStateModel, ParseFault> {
    match ev {
        MarcXmlEventModel::Start { name, tag, ind1, ind2, code } => {
            if name == "collection"@ {
                Ok(XmlStateModel { in_collection: true, ..s })
            } else if name == "record"@ {
                Ok(
                    XmlStateModel {
                        record: Some(
                            RecordModel {
                                leader: initial_leader(),
                                control_fields: Seq::empty(),
                                data_fields: Seq::empty(),
                            },
                        ),
                        ..s
                    },
                )
            } else if name == "leader"@ {
                Ok(XmlStateModel { value: Seq::empty(), ..s })
            } else if name == "controlfield"@ {
                match tag {
                    None => Err(ParseFault::Xml),
                    Some(t) => Ok(XmlStateModel { tag: t, value: Seq::empty(), ..s }),
                }
            } else if name == "datafield"@ {
                match tag {
                    None => Err(ParseFault::Xml),
                    Some(t) => Ok(
                        XmlStateModel {
                            field: Some(
                                DataFieldModel {
                                    tag: t,
                                    ind1: indicator(ind1),
                                    ind2: indicator(ind2),
                                    subfields: Seq::empty(),
                                },
                            ),
                            ..s
                        },
                    ),
                }
            } else if name == "subfield"@ {
                match code {
                    None => Err(ParseFault::Xml),
                    Some(c) => if c.len() == 0 {
                        Err(ParseFault::Xml)
                    } else {
                        Ok(XmlStateModel { code: Some(c[0]), value: Seq::empty(), ..s })
                    },
                }
            } else {
                Ok(s)
            }
        },
        MarcXmlEventModel::Text { text } => Ok(XmlStateModel { value: s.value + text, ..s }),
        MarcXmlEventModel::End { name } => {
            if name == "record"@ {
                match s.record {
                    Some(r) => Ok(XmlStateModel { records: s.records.push(r), record: None, ..s }),
                    None => Ok(s),
                }
            } else if name == "leader"@ {
                match s.record {
                    None => Ok(s),
                    Some(r) => {
                        let b = encode_utf8(s.value);
                        if b.len() < 24 || !leader_bytes_valid(b.take(24)) {
                            Err(ParseFault::Leader)
                        } else {
                            Ok(
                                XmlStateModel {
                                    record: Some(
                                        RecordModel { leader: leader_from_bytes(b.take(24)), ..r },
                                    ),
                                    ..s
                                },
                            )
                        }
                    },
                }
            } else if name == "controlfield"@ {
                let cleared = XmlStateModel { tag: Seq::empty(), value: Seq::empty(), ..s };
                match s.record {
                    Some(r) => Ok(
                        XmlStateModel {
                            record: Some(
                                RecordModel {
                                    control_fields: r.control_fields.push(
                                        ControlFieldModel { tag: s.tag, value: s.value },
                                    ),
                                    ..r
                                },
                            ),
                            ..cleared
                        },
                    ),
                    None => Ok(cleared),
                }
            } else if name == "datafield"@ {
                match s.field {
                    None => Ok(s),
                    Some(f) => match s.record {
                        Some(r) => Ok(
                            XmlStateModel {
                                record: Some(
                                    RecordModel { data_fields: r.data_fields.push(f), ..r },
                                ),
                                field: None,
                                ..s
                            },
                        ),
                        None => Ok(XmlStateModel { field: None, ..s }),
                    },
                }
            } else if name == "subfield"@ {
                match s.code {
                    None => Ok(XmlStateModel { value: Seq::empty(), ..s }),
                    Some(c) => match s.field {
                        Some(f) => Ok(
                            XmlStateModel {
                                field: Some(
                                    DataFieldModel {
                                        subfields: f.subfields.push(
                                            SubfieldModel { code: c, value: s.value },
                                        ),
                                        ..f
                                    },
                                ),
                                code: None,
                                value: Seq::empty(),
                                ..s
                            },
                        ),
                        None => Ok(XmlStateModel { code: None, value: Seq::empty(), ..s }),
                    },
                }
            } else {
                Ok(s)
            }
        },
        MarcXmlEventModel::Other => Ok(s),
    }
}

/// The state after a run of events, or the failure of the first that fails.
pub open spec fn xml_run(evs: Seq<MarcXmlEventModel>) -> Result<XmlStateModel, ParseFault>
    decreases evs.len(),
{
    if evs.len() == 0 {
        Ok(initial_state())
    } else {
        match xml_run(evs.drop_last()) {
            Err(f) => Err(f),
            Ok(s) => xml_step(s, evs.last()),
        }
    }
}

/// The records gathered once the document ends; a lone `<record>` left open
/// outside a collection counts too.
pub open spec fn xml_records(s: XmlStateModel) -> Seq<RecordModel> {
    if !s.in_collection && s.records.len() == 0 && s.record is Some {
        seq![s.record->0]
    } else {
        s.records
    }
}

fn initial_leader_value() -> (l: Leader)
    ensures
        l == initial_leader(),
{
    Leader {
        record_length: 0,
        record_status: ' ',
        record_type: ' ',
        bibliographic_level: ' ',
        type_of_control: ' ',
        character_coding_scheme: ' ',
        indicator_count: 2,
        subfield_code_count: 2,
        base_address_of_data: 0,
        encoding_level: ' ',
        descriptive_cataloging_form: ' ',
        multipart_resource_record_level: ' ',
        length_of_length_of_field_portion: 4,
        length_of_starting_character_position_portion: 5,
        length_of_implementation_defined_portion: 0,
        undefined: ' ',
    }
}

fn indicator_of(a: &Option<String>) -> (c: char)
    ensures
        c == indicator(opt_chars(*a)),
{
    match a {
        Some(s) => {
            let cs = chars_of(s.as_str());
            if cs.len() > 0 {
                cs[0]
            } else {
                ' '
            }
        },
        None => ' ',
    }
}

/// The state before any event.
pub fn initial_xml_state() -> (s: XmlState)
    ensures
        s@ == initial_state(),
{
    let s = XmlState {
        records: Vec::new(),
        record: None,
        field: None,
        code: None,
        tag: String::new(),
        value: String::new(),
        in_collection: false,
    };
    proof {
        assert(s@.records =~= Seq::<RecordModel>::empty());
    }
    s
}

#[verifier::rlimit(60)]
fn start_element(
    s: XmlState,
    name: String,
    tag: Option<String>,
    ind1: Option<String>,
    ind2: Option<String>,
    code: Option<String>,
) -> (r: Result<XmlState, ParseError>)
    ensures
        match xml_step(
            s@,
            MarcXmlEventModel::Start {
                name: name@,
                tag: opt_chars(tag),
                ind1: opt_chars(ind1),
                ind2: opt_chars(ind2),
                code: opt_chars(code),
            },
        ) {
            Ok(m) => r matches Ok(t) && t@ == m,
            Err(f) => r matches Err(e) && e.fault() == f,
        },
{
    let XmlState { records, record, field, code: pending, tag: pending_tag, value, in_collection } =
        s;
    if str_eq(name.as_str(), "collection") {
        Ok(XmlState { records, record, field, code: pending, tag: pending_tag, value, in_collection: true })
    } else if str_eq(name.as_str(), "record") {
        let fresh = Record {
            leader: initial_leader_value(),
            control_fields: Vec::new(),
            data_fields: Vec::new(),
        };
        proof {
            assert(fresh@.control_fields =~= Seq::<ControlFieldModel>::empty());
            assert(fresh@.data_fields =~= Seq::<DataFieldModel>::empty());
        }
        Ok(XmlState { records, record: Some(fresh), field, code: pending, tag: pending_tag, value, in_collection })
    } else if str_eq(name.as_str(), "leader") {
        Ok(XmlState { records, record, field, code: pending, tag: pending_tag, value: String::new(), in_collection })
    } else if str_eq(name.as_str(), "controlfield") {
        match tag {
            None => Err(ParseError::InvalidXml("controlfield without tag".to_owned())),
            Some(t) => Ok(XmlState { records, record, field, code: pending, tag: t, value: String::new(), in_collection }),
        }
    } else if str_eq(name.as_str(), "datafield") {
        match tag {
            None => Err(ParseError::InvalidXml("datafield without tag".to_owned())),
            Some(t) => {
                let f = DataField { tag: t, ind1: indicator_of(&ind1), ind2: indicator_of(&ind2), subfields: Vec::new() };
                proof {
                    assert(f@.subfields =~= Seq::<SubfieldModel>::empty());
                }
                Ok(XmlState { records, record, field: Some(f), code: pending, tag: pending_tag, value, in_collection })
            },
        }
    } else if str_eq(name.as_str(), "subfield") {
        match code {
            None => Err(ParseError::InvalidXml("subfield without code".to_owned())),
            Some(c) => {
                let cs = chars_of(c.as_str());
                if cs.len() == 0 {
                    Err(ParseError::InvalidXml("empty subfield code".to_owned()))
                } else {
                    Ok(XmlState { records, record, field, code: Some(cs[0]), tag: pending_tag, value: String::new(), in_collection })
                }
            },
        }
    } else {
        Ok(XmlState { records, record, field, code: pending, tag: pending_tag, value, in_collection })
    }
}

fn push_subfield(f: DataField, code: char, value: String) -> (r: DataField)
    ensures
        r@ == (DataFieldModel {
            subfields: f@.subfields.push(SubfieldModel { code, value: value@ }),
            ..f@
        }),
{
    let mut f = f;
    let ghost before = f@.subfields;
    let sf = Subfield { code, value };
    let ghost sfm = sf@;
    f.subfields.push(sf);
    proof {
        assert(f@.subfields =~= before.push(sfm));
    }
    f
}

#[verifier::rlimit(60)]
fn end_element(s: XmlState, name: String) -> (r: Result<XmlState, ParseError>)
    ensures
        match xml_step(s@, MarcXmlEventModel::End { name: name@ }) {
            Ok(m) => r matches Ok(t) && t@ == m,
            Err(f) => r matches Err(e) && e.fault() == f,
        },
{
    let ghost old_view = s@;
    let XmlState { mut records, record, field, code, tag, value, in_collection } = s;
    if str_eq(name.as_str(), "record") {
        match record {
            Some(rec) => {
                let ghost before = records_model(records@);
                let ghost rm = rec@;
                records.push(rec);
                proof {
                    assert(records_model(records@) =~= before.push(rm));
                }
                Ok(XmlState { records, record: None, field, code, tag, value, in_collection })
            },
            None => Ok(XmlState { records, record: None, field, code, tag, value, in_collection }),
        }
    } else if str_eq(name.as_str(), "leader") {
        match record {
            None => Ok(XmlState { records, record: None, field, code, tag, value, in_collection }),
            Some(mut rec) => {
                let bytes = value.as_str().as_bytes();
                if bytes.len() < 24 {
                    return Err(ParseError::InvalidLeader("leader shorter than 24 bytes".to_owned()));
                }
                proof {
                    assert(bytes@.take(24) =~= bytes@.subrange(0, 24));
                }
                match Leader::from_bytes(&bytes[0..24]) {
                    Err(m) => Err(ParseError::InvalidLeader(m)),
                    Ok(l) => {
                        rec.leader = l;
                        Ok(XmlState { records, record: Some(rec), field, code, tag, value, in_collection })
                    },
                }
            },
        }
    } else if str_eq(name.as_str(), "controlfield") {
        match record {
            Some(mut rec) => {
                let ghost before = rec@.control_fields;
                let cf = ControlField { tag, value };
                rec.control_fields.push(cf);
                proof {
                    assert(rec@.control_fields =~= before.push(cf@));
                }
                Ok(XmlState { records, record: Some(rec), field, code, tag: String::new(), value: String::new(), in_collection })
            },
            None => Ok(XmlState { records, record: None, field, code, tag: String::new(), value: String::new(), in_collection }),
        }
    } else if str_eq(name.as_str(), "datafield") {
        match field {
            None => Ok(XmlState { records, record, field: None, code, tag, value, in_collection }),
            Some(f) => match record {
                Some(mut rec) => {
                    let ghost before = rec@.data_fields;
                    let ghost fm = f@;
                    rec.data_fields.push(f);
                    proof {
                        assert(rec@.data_fields =~= before.push(fm));
                    }
                    Ok(XmlState { records, record: Some(rec), field: None, code, tag, value, in_collection })
                },
                None => Ok(XmlState { records, record: None, field: None, code, tag, value, in_collection }),
            },
        }
    } else if str_eq(name.as_str(), "subfield") {
        match code {
            None => Ok(XmlState { records, record, field, code: None, tag, value: String::new(), in_collection }),
            Some(c) => match field {
                Some(f0) => {
                    let f = push_subfield(f0, c, value);
                    Ok(XmlState { records, record, field: Some(f), code: None, tag, value: String::new(), in_collection })
                },
                None => Ok(XmlState { records, record, field: None, code: None, tag, value: String::new(), in_collection }),
            },
        }
    } else {
        Ok(XmlState { records, record, field, code, tag, value, in_collection })
    }
}

/// Applies one MARCXML event to what the reader has gathered.
pub fn apply_event(s: XmlState, ev: MarcXmlEvent) -> (r: Result<XmlState, ParseError>)
    ensures
        match xml_step(s@, ev@) {
            Ok(m) => r matches Ok(t) && t@ == m,
            Err(f) => r matches Err(e) && e.fault() == f,
        },
{
    match ev {
        MarcXmlEvent::Start { name, tag, ind1, ind2, code } => start_element(s, name, tag, ind1, ind2, code),
        MarcXmlEvent::End { name } => end_element(s, name),
        MarcXmlEvent::Text { text } => {
            let XmlState { records, record, field, code, tag, mut value, in_collection } = s;
            value.append(text.as_str());
            Ok(XmlState { records, record, field, code, tag, value, in_collection })
        },
        MarcXmlEvent::Other => Ok(s),
    }
}

/// The records gathered once the document has ended.
pub fn finish_xml(s: XmlState) -> (r: Vec<Record>)
    ensures
        records_model(r@) == xml_records(s@),
{
    let XmlState { mut records, record, field: _, code: _, tag: _, value: _, in_collection } = s;
    if !in_collection && records.len() == 0 {
        if let Some(rec) = record {
            let ghost rm = rec@;
            records.push(rec);
            proof {
                assert(records_model(records@) =~= seq![rm]);
            }
        }
    }
    records
}

fn copy_text(o: &Option<String>) -> (r: Option<String>)
    ensures
        opt_chars(r) == opt_chars(*o),
{
    match o {
        Some(s) => Some(s.clone()),
        None => None,
    }
}

fn copy_event(ev: &MarcXmlEvent) -> (r: MarcXmlEvent)
    ensures
        r@ == ev@,
{
    match ev {
        MarcXmlEvent::Start { name, tag, ind1, ind2, code } => MarcXmlEvent::Start {
            name: name.clone(),
            tag: copy_text(tag),
            ind1: copy_text(ind1),
            ind2: copy_text(ind2),
            code: copy_text(code),
        },
        MarcXmlEvent::End { name } => MarcXmlEvent::End { name: name.clone() },
        MarcXmlEvent::Text { text } => MarcXmlEvent::Text { text: text.clone() },
        MarcXmlEvent::Other => MarcXmlEvent::Other,
    }
}

pub open spec fn events_model(evs: Seq<MarcXmlEvent>) -> Seq<MarcXmlEventModel> {
    evs.map_values(|e: MarcXmlEvent| e@)
}

/// The records that a run of MARCXML events describes.
pub fn parse_xml_events(events: &Vec<MarcXmlEvent>) -> (r: Result<Vec<Record>, ParseError>)
    ensures
        match xml_run(events_model(events@)) {
            Ok(s) => r matches Ok(v) && records_model(v@) == xml_records(s),
            Err(f) => r matches Err(e) && e.fault() == f,
        },
{
    let ghost evs = events_model(events@);
    let mut state = initial_xml_state();
    let mut i: usize = 0;
    proof {
        assert(evs.take(0) =~= Seq::<MarcXmlEventModel>::empty());
    }
    while i < events.len()
        invariant
            evs == events_model(events@),
            0 <= i <= events@.len(),
            xml_run(evs.take(i as int)) == Ok::<XmlStateModel, ParseFault>(state@),
        decreases events.len() - i,
    {
        proof {
            assert(evs.take(i + 1).drop_last() =~= evs.take(i as int));
        }
        state = match apply_event(state, copy_event(&events[i])) {
            Ok(t) => t,
            Err(e) => {
                proof {
                    lemma_xml_run_stuck(evs, i + 1);
                }
                return Err(e);
            },
        };
        i = i + 1;
    }
    proof {
        assert(evs.take(i as int) =~= evs);
    }
    Ok(finish_xml(state))
}

proof fn lemma_xml_run_stuck(evs: Seq<MarcXmlEventModel>, k: int)
    requires
        0 <= k <= evs.len(),
        xml_run(evs.take(k)) is Err,
    ensures
        xml_run(evs) == xml_run(evs.take(k)),
    decreases evs.len() - k,
{
    if k == evs.len() {
        assert(evs.take(k) =~= evs);
    } else {
        assert(evs.take(k + 1).drop_last() =~= evs.take(k));
        lemma_xml_run_stuck(evs, k + 1);
    }
}

/// The MARCXML event for a start tag: its name and the `tag`, `ind1`, `ind2`
/// and `code` attributes, or `None` when they cannot be read.
pub open spec fn start_event_model(name: Seq<char>, attributes: Seq<char>) -> Option<MarcXmlEventModel> {
    match (
        attribute_value(attributes, "tag"@),
        attribute_value(attributes, "ind1"@),
        attribute_value(attributes, "ind2"@),
        attribute_value(attributes, "code"@),
    ) {
        (Some(tag), Some(ind1), Some(ind2), Some(code)) => Some(
            MarcXmlEventModel::Start { name, tag, ind1, ind2, code },
        ),
        _ => None,
    }
}

/// The MARCXML events that a token stands for: an empty element is a start
/// and an end; the end of the document stands for none; a failure fails.
pub open spec fn token_events(t: XmlTokenModel) -> Result<Seq<MarcXmlEventModel>, ParseFault> {
    match t {
        XmlTokenModel::Start(name, attributes) => match start_event_model(name, attributes) {
            Some(ev) => Ok(seq![ev]),
            None => Err(ParseFault::Xml),
        },
        XmlTokenModel::Empty(name, attributes) => match start_event_model(name, attributes) {
            Some(ev) => Ok(seq![ev, MarcXmlEventModel::End { name }]),
            None => Err(ParseFault::Xml),
        },
        XmlTokenModel::End(name) => Ok(seq![MarcXmlEventModel::End { name }]),
        XmlTokenModel::Text(text) => Ok(seq![MarcXmlEventModel::Text { text }]),
        XmlTokenModel::Other => Ok(seq![MarcXmlEventModel::Other]),
        XmlTokenModel::Eof => Ok(Seq::empty()),
        XmlTokenModel::Error => Err(ParseFault::Xml),
    }
}

/// The state after events, starting from `s`.
pub open spec fn run_from(s: XmlStateModel, evs: Seq<MarcXmlEventModel>) -> Result<XmlStateModel, ParseFault>
    decreases evs.len(),
{
    if evs.len() == 0 {
        Ok(s)
    } else {
        match run_from(s, evs.drop_last()) {
            Err(f) => Err(f),
            Ok(t) => xml_step(t, evs.last()),
        }
    }
}

pub proof fn lemma_run_one(s: XmlStateModel, ev: MarcXmlEventModel)
    ensures
        run_from(s, seq![ev]) == xml_step(s, ev),
{
    assert(seq![ev].drop_last() =~= Seq::<MarcXmlEventModel>::empty());
    reveal_with_fuel(run_from, 2);
}

proof fn lemma_run_two(s: XmlStateModel, a: MarcXmlEventModel, b: MarcXmlEventModel)
    ensures
        run_from(s, seq![a, b]) == match xml_step(s, a) {
            Err(f) => Err(f),
            Ok(t) => xml_step(t, b),
        },
{
    assert(seq![a, b].drop_last() =~= seq![a]);
    assert(seq![a].drop_last() =~= Seq::<MarcXmlEventModel>::empty());
    reveal_with_fuel(run_from, 3);
}

/// The state after reading tokens, or the failure of the first that fails.
pub open spec fn read_tokens(ts: Seq<XmlTokenModel>) -> Result<XmlStateModel, ParseFault>
    decreases ts.len(),
{
    if ts.len() == 0 {
        Ok(initial_state())
    } else {
        match read_tokens(ts.drop_last()) {
            Err(f) => Err(f),
            Ok(s) => match token_events(ts.last()) {
                Err(f) => Err(f),
                Ok(evs) => run_from(s, evs),
            },
        }
    }
}

/// The records of a MARCXML document: what its tokens read as, or the kind of failure.
pub open spec fn xml_outcome(text: Seq<char>) -> Result<Seq<RecordModel>, ParseFault> {
    match read_tokens(xml_tokens(text)) {
        Ok(s) => Ok(xml_records(s)),
        Err(f) => Err(f),
    }
}

proof fn lemma_read_tokens_stuck(ts: Seq<XmlTokenModel>, k: int)
    requires
        0 <= k <= ts.len(),
        read_tokens(ts.take(k)) is Err,
    ensures
        read_tokens(ts) == read_tokens(ts.take(k)),
    decreases ts.len() - k,
{
    if k == ts.len() {
        assert(ts.take(k) =~= ts);
    } else {
        assert(ts.take(k + 1).drop_last() =~= ts.take(k));
        lemma_read_tokens_stuck(ts, k + 1);
    }
}

/// The MARCXML event for a start tag.
fn start_event(name: String, attributes: &str) -> (r: Option<MarcXmlEvent>)
    ensures
        match start_event_model(name@, attributes@) {
            Some(m) => r matches Some(ev) && ev@ == m,
            None => r is None,
        },
{
    let tag = attribute_in(attributes, "tag")?;
    let ind1 = attribute_in(attributes, "ind1")?;
    let ind2 = attribute_in(attributes, "ind2")?;
    let code = attribute_in(attributes, "code")?;
    Some(MarcXmlEvent::Start { name, tag, ind1, ind2, code })
}

/// Reads the records of a MARCXML document: a single `<record>` or a
/// `<collection>` of them, with or without a namespace prefix. The document's
/// tokens come from quick_xml; what they mean is `token_events` and `xml_step`.
#[verifier::rlimit(60)]
pub fn parse_marc_xml(data: &[u8], _format_encoding: FormatEncoding) -> (r: Result<
    Vec<Record>,
    ParseError,
>)
    ensures
        !valid_utf8(data@) ==> (r matches Err(e) && e.fault() == ParseFault::Xml),
        valid_utf8(data@) ==> match xml_outcome(decode_utf8(data@)) {
            Ok(m) => r matches Ok(v) && records_model(v@) == m,
            Err(f) => r matches Err(e) && e.fault() == f,
        },
{
    let text = match string_from_utf8(slice_to_vec(data)) {
        Some(t) => t,
        None => {
            return Err(ParseError::InvalidXml("document is not UTF-8".to_owned()));
        },
    };
    let mut reader = xml_reader(text.as_str());
    let ghost all = unread_tokens(reader);
    let mut state = initial_xml_state();
    let ghost mut k: int = 0;
    proof {
        assert(all.take(0) =~= Seq::<XmlTokenModel>::empty());
        assert(all.skip(0) =~= all);
    }
    loop
        invariant_except_break
            0 <= k < all.len(),
            unread_tokens(reader) == all.skip(k),
            read_tokens(all.take(k)) == Ok::<XmlStateModel, ParseFault>(state@),
        invariant
            valid_utf8(data@),
            text@ == decode_utf8(data@),
            all == xml_tokens(text@),
            ends_once(all),
        ensures
            read_tokens(all) == Ok::<XmlStateModel, ParseFault>(state@),
        decreases all.len() - k,
    {
        let token = read_xml_event(&mut reader);
        let ghost tm = token@;
        proof {
            assert(tm == all[k]);
            assert(all.take(k + 1).drop_last() =~= all.take(k));
            assert(all.skip(k).drop_first() =~= all.skip(k + 1));
            if !is_last_token(tm) {
                assert(k + 1 < all.len());
            }
        }
        match token {
            XmlToken::Eof => {
                proof {
                    assert(k == all.len() - 1);
                    assert(all.take(k + 1) =~= all);
                    assert(run_from(state@, Seq::empty()) == Ok::<XmlStateModel, ParseFault>(state@));
                }
                break;
            },
            XmlToken::Error => {
                proof {
                    lemma_read_tokens_stuck(all, k + 1);
                }
                return Err(ParseError::InvalidXml("malformed XML".to_owned()));
            },
            XmlToken::Start(name, attributes) => {
                let ev = match start_event(name, attributes.as_str()) {
                    Some(ev) => ev,
                    None => {
                        proof {
                            lemma_read_tokens_stuck(all, k + 1);
                        }
                        return Err(ParseError::InvalidXml("malformed attributes".to_owned()));
                    },
                };
                let ghost evm = ev@;
                proof {
                    lemma_run_one(state@, evm);
                }
                state = match apply_event(state, ev) {
                    Ok(t) => t,
                    Err(e) => {
                        proof {
                            lemma_read_tokens_stuck(all, k + 1);
                        }
                        return Err(e);
                    },
                };
            },
            XmlToken::Empty(name, attributes) => {
                let end = MarcXmlEvent::End { name: name.clone() };
                let ev = match start_event(name, attributes.as_str()) {
                    Some(ev) => ev,
                    None => {
                        proof {
                            lemma_read_tokens_stuck(all, k + 1);
                        }
                        return Err(ParseError::InvalidXml("malformed attributes".to_owned()));
                    },
                };
                let ghost evm = ev@;
                let ghost endm = end@;
                proof {
                    lemma_run_two(state@, evm, endm);
                }
                state = match apply_event(state, ev) {
                    Ok(t) => t,
                    Err(e) => {
                        proof {
                            lemma_read_tokens_stuck(all, k + 1);
                        }
                        return Err(e);
                    },
                };
                state = match apply_event(state, end) {
                    Ok(t) => t,
                    Err(e) => {
                        proof {
                            lemma_read_tokens_stuck(all, k + 1);
                        }
                        return Err(e);
                    },
                };
            },
            XmlToken::End(name) => {
                let ev = MarcXmlEvent::End { name };
                let ghost evm = ev@;
                proof {
                    lemma_run_one(state@, evm);
                }
                state = match apply_event(state, ev) {
                    Ok(t) => t,
                    Err(e) => {
                        proof {
                            lemma_read_tokens_stuck(all, k + 1);
                        }
                        return Err(e);
                    },
                };
            },
            XmlToken::Text(t) => {
                let ev = MarcXmlEvent::Text { text: t };
                let ghost evm = ev@;
                proof {
                    lemma_run_one(state@, evm);
                }
                state = match apply_event(state, ev) {
                    Ok(t) => t,
                    Err(e) => {
                        proof {
                            lemma_read_tokens_stuck(all, k + 1);
                        }
                        return Err(e);
                    },
                };
            },
            XmlToken::Other => {
                proof {
                    lemma_run_one(state@, MarcXmlEventModel::Other);
                }
            },
        }
        proof {
            k = k + 1;
        }
    }
    Ok(finish_xml(state))
}

} // verus!
