//! The MARCXML reader reads back the events of what the MARCXML writer writes.
use crate::record::{
    lemma_decimal, lemma_leader_round_trip, ControlFieldModel, DataFieldModel, RecordModel,
    SubfieldModel,
};
use crate::xml_reader::{
    initial_state, lemma_run_one, run_from, xml_records, xml_run, xml_step, MarcXmlEventModel,
    XmlStateModel,
};
use crate::xml_writer::{records_xml, xml_document};
use vstd::prelude::*;
use vstd::utf8::{decode_utf8, valid_utf8};

verus! {

proof fn lemma_run_concat(s: XmlStateModel, a: Seq<MarcXmlEventModel>, b: Seq<MarcXmlEventModel>)
    ensures
        run_from(s, a + b) == match run_from(s, a) {
            Ok(t) => run_from(t, b),
            Err(f) => Err(f),
        },
    decreases b.len(),
{
    if b.len() == 0 {
        assert(a + b =~= a);
    } else {
        lemma_run_concat(s, a, b.drop_last());
        assert((a + b).drop_last() =~= a + b.drop_last());
        assert((a + b).last() == b.last());
    }
}

proof fn lemma_run_is_xml_run(evs: Seq<MarcXmlEventModel>)
    ensures
        xml_run(evs) == run_from(initial_state(), evs),
    decreases evs.len(),
{
    if evs.len() > 0 {
        lemma_run_is_xml_run(evs.drop_last());
    }
}

proof fn lemma_run_three(s: XmlStateModel, a: MarcXmlEventModel, b: MarcXmlEventModel, c: MarcXmlEventModel)
    ensures
        run_from(s, seq![a, b, c]) == match xml_step(s, a) {
            Err(f) => Err(f),
            Ok(t) => match xml_step(t, b) {
                Err(f) => Err(f),
                Ok(u) => xml_step(u, c),
            },
        },
{
    assert(seq![a, b, c].drop_last() =~= seq![a, b]);
    assert(seq![a, b].drop_last() =~= seq![a]);
    assert(seq![a].drop_last() =~= Seq::<MarcXmlEventModel>::empty());
    reveal_with_fuel(run_from, 4);
}

pub open spec fn element_start(name: Seq<char>) -> MarcXmlEventModel {
    MarcXmlEventModel::Start { name, tag: None, ind1: None, ind2: None, code: None }
}

pub open spec fn element_end(name: Seq<char>) -> MarcXmlEventModel {
    MarcXmlEventModel::End { name }
}

/// The events of a `<subfield>` element.
pub open spec fn subfield_events(sf: SubfieldModel) -> Seq<MarcXmlEventModel> {
    seq![
        MarcXmlEventModel::Start {
            name: "subfield"@,
            tag: None,
            ind1: None,
            ind2: None,
            code: Some(seq![sf.code]),
        },
        MarcXmlEventModel::Text { text: sf.value },
        element_end("subfield"@),
    ]
}

pub open spec fn subfields_events(sfs: Seq<SubfieldModel>) -> Seq<MarcXmlEventModel>
    decreases sfs.len(),
{
    if sfs.len() == 0 {
        Seq::empty()
    } else {
        subfields_events(sfs.drop_last()) + subfield_events(sfs.last())
    }
}

/// The events of a `<datafield>` element.
pub open spec fn data_field_events(f: DataFieldModel) -> Seq<MarcXmlEventModel> {
    seq![
        MarcXmlEventModel::Start {
            name: "datafield"@,
            tag: Some(f.tag),
            ind1: Some(seq![f.ind1]),
            ind2: Some(seq![f.ind2]),
            code: None,
        },
    ] + subfields_events(f.subfields) + seq![element_end("datafield"@)]
}

pub open spec fn data_fields_events(fs: Seq<DataFieldModel>) -> Seq<MarcXmlEventModel>
    decreases fs.len(),
{
    if fs.len() == 0 {
        Seq::empty()
    } else {
        data_fields_events(fs.drop_last()) + data_field_events(fs.last())
    }
}

/// The events of a `<controlfield>` element.
pub open spec fn control_field_events(f: ControlFieldModel) -> Seq<MarcXmlEventModel> {
    seq![
        MarcXmlEventModel::Start {
            name: "controlfield"@,
            tag: Some(f.tag),
            ind1: None,
            ind2: None,
            code: None,
        },
        MarcXmlEventModel::Text { text: f.value },
        element_end("controlfield"@),
    ]
}

pub open spec fn control_fields_events(fs: Seq<ControlFieldModel>) -> Seq<MarcXmlEventModel>
    decreases fs.len(),
{
    if fs.len() == 0 {
        Seq::empty()
    } else {
        control_fields_events(fs.drop_last()) + control_field_events(fs.last())
    }
}

/// The events of a `<record>` element as the writer lays it out.
pub open spec fn record_events(r: RecordModel) -> Seq<MarcXmlEventModel> {
    seq![
        element_start("record"@),
        element_start("leader"@),
        MarcXmlEventModel::Text { text: decode_utf8(r.leader.spec_bytes()) },
        element_end("leader"@),
    ] + control_fields_events(r.control_fields) + data_fields_events(r.data_fields) + seq![
        element_end("record"@),
    ]
}

pub open spec fn records_events(rs: Seq<RecordModel>) -> Seq<MarcXmlEventModel>
    decreases rs.len(),
{
    if rs.len() == 0 {
        Seq::empty()
    } else {
        records_events(rs.drop_last()) + record_events(rs.last())
    }
}

/// The events of the document that the writer produces for `rs`: the
/// declaration, then the records, wrapped in a `<collection>` when there are several.
pub open spec fn document_events(rs: Seq<RecordModel>) -> Seq<MarcXmlEventModel> {
    if rs.len() > 1 {
        seq![MarcXmlEventModel::Other, element_start("collection"@)] + records_events(rs) + seq![
            element_end("collection"@),
        ]
    } else {
        seq![MarcXmlEventModel::Other] + records_events(rs)
    }
}

proof fn lemma_names_differ()
    ensures
        "collection"@ != "record"@,
        "collection"@ != "leader"@,
        "collection"@ != "controlfield"@,
        "collection"@ != "datafield"@,
        "collection"@ != "subfield"@,
        "record"@ != "leader"@,
        "record"@ != "controlfield"@,
        "record"@ != "datafield"@,
        "record"@ != "subfield"@,
        "leader"@ != "controlfield"@,
        "leader"@ != "datafield"@,
        "leader"@ != "subfield"@,
        "controlfield"@ != "datafield"@,
        "controlfield"@ != "subfield"@,
        "datafield"@ != "subfield"@,
{
    reveal_strlit("collection");
    reveal_strlit("record");
    reveal_strlit("leader");
    reveal_strlit("controlfield");
    reveal_strlit("datafield");
    reveal_strlit("subfield");
    assert("collection"@.len() == 10);
    assert("record"@.len() == 6);
    assert("leader"@.len() == 6);
    assert("controlfield"@.len() == 12);
    assert("datafield"@.len() == 9);
    assert("subfield"@.len() == 8);
    assert("record"@[0] != "leader"@[0]);
}

/// The parts of the reader's state that fields do not touch are kept.
pub open spec fn same_frame(s: XmlStateModel, t: XmlStateModel) -> bool {
    &&& t.records == s.records
    &&& t.in_collection == s.in_collection
}

proof fn lemma_subfield_run(s: XmlStateModel, sf: SubfieldModel)
    requires
        s.field is Some,
    ensures
        run_from(s, subfield_events(sf)) matches Ok(t) && same_frame(s, t) && t.record == s.record
            && t.field == Some(
            DataFieldModel { subfields: s.field->0.subfields.push(sf), ..s.field->0 },
        ),
{
    lemma_names_differ();
    lemma_run_three(
        s,
        subfield_events(sf)[0],
        subfield_events(sf)[1],
        subfield_events(sf)[2],
    );
    assert(subfield_events(sf) =~= seq![
        subfield_events(sf)[0],
        subfield_events(sf)[1],
        subfield_events(sf)[2],
    ]);
    assert(Seq::<char>::empty() + sf.value =~= sf.value);
}

proof fn lemma_subfields_run(s: XmlStateModel, sfs: Seq<SubfieldModel>)
    requires
        s.field is Some,
    ensures
        run_from(s, subfields_events(sfs)) matches Ok(t) && same_frame(s, t) && t.record == s.record
            && t.field == Some(
            DataFieldModel { subfields: s.field->0.subfields + sfs, ..s.field->0 },
        ),
    decreases sfs.len(),
{
    if sfs.len() == 0 {
        assert(s.field->0.subfields + sfs =~= s.field->0.subfields);
        assert(subfields_events(sfs) =~= Seq::<MarcXmlEventModel>::empty());
    } else {
        lemma_subfields_run(s, sfs.drop_last());
        let t = run_from(s, subfields_events(sfs.drop_last()))->Ok_0;
        lemma_subfield_run(t, sfs.last());
        lemma_run_concat(s, subfields_events(sfs.drop_last()), subfield_events(sfs.last()));
        assert(s.field->0.subfields + sfs.drop_last() + seq![sfs.last()] =~= s.field->0.subfields
            + sfs);
        assert((s.field->0.subfields + sfs.drop_last()).push(sfs.last()) =~= s.field->0.subfields
            + sfs);
    }
}

#[verifier::rlimit(60)]
proof fn lemma_data_field_run(s: XmlStateModel, f: DataFieldModel)
    requires
        s.record is Some,
    ensures
        run_from(s, data_field_events(f)) matches Ok(t) && same_frame(s, t) && t.record == Some(
            RecordModel { data_fields: s.record->0.data_fields.push(f), ..s.record->0 },
        ),
{
    lemma_names_differ();
    let start = data_field_events(f)[0];
    let s1 = xml_step(s, start)->Ok_0;
    lemma_run_one(s, start);
    assert(s1.field == Some(
        DataFieldModel { tag: f.tag, ind1: f.ind1, ind2: f.ind2, subfields: Seq::empty() },
    ));
    lemma_subfields_run(s1, f.subfields);
    let s2 = run_from(s1, subfields_events(f.subfields))->Ok_0;
    assert(Seq::<SubfieldModel>::empty() + f.subfields =~= f.subfields);
    lemma_run_one(s2, element_end("datafield"@));
    lemma_run_concat(s, seq![start], subfields_events(f.subfields));
    lemma_run_concat(s, seq![start] + subfields_events(f.subfields), seq![element_end("datafield"@)]);
    assert(data_field_events(f) =~= seq![start] + subfields_events(f.subfields) + seq![
        element_end("datafield"@),
    ]);
}

proof fn lemma_data_fields_run(s: XmlStateModel, fs: Seq<DataFieldModel>)
    requires
        s.record is Some,
    ensures
        run_from(s, data_fields_events(fs)) matches Ok(t) && same_frame(s, t) && t.record == Some(
            RecordModel { data_fields: s.record->0.data_fields + fs, ..s.record->0 },
        ),
    decreases fs.len(),
{
    if fs.len() == 0 {
        assert(s.record->0.data_fields + fs =~= s.record->0.data_fields);
    } else {
        lemma_data_fields_run(s, fs.drop_last());
        let t = run_from(s, data_fields_events(fs.drop_last()))->Ok_0;
        lemma_data_field_run(t, fs.last());
        lemma_run_concat(s, data_fields_events(fs.drop_last()), data_field_events(fs.last()));
        assert((s.record->0.data_fields + fs.drop_last()).push(fs.last()) =~= s.record->0.data_fields
            + fs);
    }
}

proof fn lemma_control_field_run(s: XmlStateModel, f: ControlFieldModel)
    requires
        s.record is Some,
    ensures
        run_from(s, control_field_events(f)) matches Ok(t) && same_frame(s, t) && t.record == Some(
            RecordModel { control_fields: s.record->0.control_fields.push(f), ..s.record->0 },
        ),
{
    lemma_names_differ();
    let evs = control_field_events(f);
    lemma_run_three(s, evs[0], evs[1], evs[2]);
    assert(evs =~= seq![evs[0], evs[1], evs[2]]);
    assert(Seq::<char>::empty() + f.value =~= f.value);
}

proof fn lemma_control_fields_run(s: XmlStateModel, fs: Seq<ControlFieldModel>)
    requires
        s.record is Some,
    ensures
        run_from(s, control_fields_events(fs)) matches Ok(t) && same_frame(s, t) && t.record == Some(
            RecordModel { control_fields: s.record->0.control_fields + fs, ..s.record->0 },
        ),
    decreases fs.len(),
{
    if fs.len() == 0 {
        assert(s.record->0.control_fields + fs =~= s.record->0.control_fields);
    } else {
        lemma_control_fields_run(s, fs.drop_last());
        let t = run_from(s, control_fields_events(fs.drop_last()))->Ok_0;
        lemma_control_field_run(t, fs.last());
        lemma_run_concat(s, control_fields_events(fs.drop_last()), control_field_events(fs.last()));
        assert((s.record->0.control_fields + fs.drop_last()).push(fs.last())
            =~= s.record->0.control_fields + fs);
    }
}

#[verifier::rlimit(60)]
proof fn lemma_record_run(s: XmlStateModel, r: RecordModel)
    requires
        valid_utf8(r.leader.spec_bytes()),
        r.leader.well_formed(),
    ensures
        run_from(s, record_events(r)) matches Ok(t) && t.records == s.records.push(r)
            && t.in_collection == s.in_collection && t.record is None,
{
    lemma_names_differ();
    let head = seq![
        element_start("record"@),
        element_start("leader"@),
        MarcXmlEventModel::Text { text: decode_utf8(r.leader.spec_bytes()) },
        element_end("leader"@),
    ];
    vstd::utf8::decode_utf8_encode_utf8(r.leader.spec_bytes());
    lemma_leader_round_trip(r.leader);
    let b = r.leader.spec_bytes();
    assert(b.len() == 24) by {
        lemma_decimal(r.leader.record_length as nat, 5);
        lemma_decimal(r.leader.base_address_of_data as nat, 5);
    }
    assert(b.take(24) =~= b);
    assert(head.drop_last() =~= seq![head[0], head[1], head[2]]);
    lemma_run_three(s, head[0], head[1], head[2]);
    assert(Seq::<char>::empty() + decode_utf8(b) =~= decode_utf8(b));
    reveal_with_fuel(run_from, 2);
    let s1 = run_from(s, head)->Ok_0;
    assert(s1.record == Some(
        RecordModel { leader: r.leader, control_fields: Seq::empty(), data_fields: Seq::empty() },
    ));
    assert(same_frame(s, s1));
    lemma_control_fields_run(s1, r.control_fields);
    let s2 = run_from(s1, control_fields_events(r.control_fields))->Ok_0;
    assert(Seq::<ControlFieldModel>::empty() + r.control_fields =~= r.control_fields);
    lemma_data_fields_run(s2, r.data_fields);
    let s3 = run_from(s2, data_fields_events(r.data_fields))->Ok_0;
    assert(Seq::<DataFieldModel>::empty() + r.data_fields =~= r.data_fields);
    lemma_run_one(s3, element_end("record"@));
    lemma_run_concat(s, head, control_fields_events(r.control_fields));
    lemma_run_concat(s, head + control_fields_events(r.control_fields), data_fields_events(r.data_fields));
    lemma_run_concat(
        s,
        head + control_fields_events(r.control_fields) + data_fields_events(r.data_fields),
        seq![element_end("record"@)],
    );
}

proof fn lemma_records_run(s: XmlStateModel, rs: Seq<RecordModel>)
    requires
        forall|i: int| 0 <= i < rs.len() ==> valid_utf8(#[trigger] rs[i].leader.spec_bytes()),
        forall|i: int| 0 <= i < rs.len() ==> (#[trigger] rs[i]).leader.well_formed(),
    ensures
        run_from(s, records_events(rs)) matches Ok(t) && t.records == s.records + rs
            && t.in_collection == s.in_collection && (rs.len() > 0 ==> t.record is None)
            && (rs.len() == 0 ==> t == s),
    decreases rs.len(),
{
    if rs.len() == 0 {
        assert(s.records + rs =~= s.records);
    } else {
        lemma_records_run(s, rs.drop_last());
        let t = run_from(s, records_events(rs.drop_last()))->Ok_0;
        assert(valid_utf8(rs[rs.len() - 1].leader.spec_bytes()));
        assert(rs[rs.len() - 1].leader.well_formed());
        lemma_record_run(t, rs.last());
        lemma_run_concat(s, records_events(rs.drop_last()), record_events(rs.last()));
        assert((s.records + rs.drop_last()).push(rs.last()) =~= s.records + rs);
    }
}

proof fn lemma_records_xml_leaders(rs: Seq<RecordModel>)
    requires
        records_xml(rs) is Some,
    ensures
        forall|i: int| 0 <= i < rs.len() ==> valid_utf8(#[trigger] rs[i].leader.spec_bytes()),
    decreases rs.len(),
{
    if rs.len() > 0 {
        lemma_records_xml_leaders(rs.drop_last());
        assert forall|i: int| 0 <= i < rs.len() implies valid_utf8(#[trigger] rs[i].leader.spec_bytes()) by {
            if i < rs.len() - 1 {
                assert(rs[i] == rs.drop_last()[i]);
            }
        }
    }
}

/// The events of the MARCXML document written for records read back as the
/// same records, leaders included, provided the writer accepted them and
/// their leaders' count positions are single digits.
#[verifier::rlimit(60)]
pub proof fn lemma_xml_round_trip(rs: Seq<RecordModel>)
    requires
        xml_document(rs) is Some,
        forall|i: int| 0 <= i < rs.len() ==> (#[trigger] rs[i]).leader.well_formed(),
    ensures
        xml_run(document_events(rs)) matches Ok(s) && xml_records(s) == rs,
{
    lemma_names_differ();
    lemma_records_xml_leaders(rs);
    lemma_run_is_xml_run(document_events(rs));
    let s0 = initial_state();
    lemma_run_one(s0, MarcXmlEventModel::Other);
    assert(Seq::<RecordModel>::empty() + rs =~= rs);
    if rs.len() > 1 {
        let head = seq![MarcXmlEventModel::Other, element_start("collection"@)];
        assert(head.drop_last() =~= seq![MarcXmlEventModel::Other]);
        reveal_with_fuel(run_from, 2);
        let s1 = run_from(s0, head)->Ok_0;
        assert(s1.in_collection);
        lemma_records_run(s1, rs);
        let s2 = run_from(s1, records_events(rs))->Ok_0;
        lemma_run_one(s2, element_end("collection"@));
        lemma_run_concat(s0, head, records_events(rs));
        lemma_run_concat(s0, head + records_events(rs), seq![element_end("collection"@)]);
    } else {
        lemma_records_run(s0, rs);
        lemma_run_concat(s0, seq![MarcXmlEventModel::Other], records_events(rs));
    }
}

} // verus!
