use crate::format::FormatEncoding;
use crate::record::{
    records_model, ControlField, ControlFieldModel, DataField, DataFieldModel, Record,
    RecordModel, Subfield, SubfieldModel,
};
use crate::text::{push_char, string_from_utf8};
use crate::writer::{append_bytes, WriteError, WriteFault};
use vstd::prelude::*;
use vstd::string::StringSliceAdditionalSpecFns;
use vstd::utf8::{decode_utf8, encode_utf8, valid_utf8};

verus! {

/// The entity that stands for a character in XML text and attribute values.
pub open spec fn xml_escaped_char(c: char) -> Seq<char> {
    if c == '<' {
        "&lt;"@
    } else if c == '>' {
        "&gt;"@
    } else if c == '&' {
        "&amp;"@
    } else if c == '\'' {
        "&apos;"@
    } else if c == '"' {
        "&quot;"@
    } else {
        seq![c]
    }
}

/// A text with the five XML special characters replaced by entities.
pub open spec fn xml_escaped(s: Seq<char>) -> Seq<char>
    decreases s.len(),
{
    if s.len() == 0 {
        Seq::empty()
    } else {
        xml_escaped(s.drop_last()) + xml_escaped_char(s.last())
    }
}

/// Relies on quick_xml::escape::escape, which replaces `<`, `>`, `&`, `'` and
/// `"` with `&lt;`, `&gt;`, `&amp;`, `&apos;` and `&quot;` and keeps the rest.
#[verifier::external_body]
fn escape(s: &str) -> (r: String)
    ensures
        r@ == xml_escaped(s@),
{
    quick_xml::escape::escape(s).into_owned()
}

pub open spec fn subfield_xml(s: SubfieldModel) -> Seq<char> {
    "<subfield code=\""@ + xml_escaped(seq![s.code]) + "\">"@ + xml_escaped(s.value)
        + "</subfield>"@
}

pub open spec fn subfields_xml(sfs: Seq<SubfieldModel>) -> Seq<char>
    decreases sfs.len(),
{
    if sfs.len() == 0 {
        Seq::empty()
    } else {
        subfields_xml(sfs.drop_last()) + subfield_xml(sfs.last())
    }
}

pub open spec fn control_xml(f: ControlFieldModel) -> Seq<char> {
    "<controlfield tag=\""@ + xml_escaped(f.tag) + "\">"@ + xml_escaped(f.value)
        + "</controlfield>"@
}

pub open spec fn controls_xml(fs: Seq<ControlFieldModel>) -> Seq<char>
    decreases fs.len(),
{
    if fs.len() == 0 {
        Seq::empty()
    } else {
        controls_xml(fs.drop_last()) + control_xml(fs.last())
    }
}

pub open spec fn data_xml(f: DataFieldModel) -> Seq<char> {
    "<datafield tag=\""@ + xml_escaped(f.tag) + "\" ind1=\""@ + xml_escaped(seq![f.ind1])
        + "\" ind2=\""@ + xml_escaped(seq![f.ind2]) + "\">"@ + subfields_xml(f.subfields)
        + "</datafield>"@
}

pub open spec fn datas_xml(fs: Seq<DataFieldModel>) -> Seq<char>
    decreases fs.len(),
{
    if fs.len() == 0 {
        Seq::empty()
    } else {
        datas_xml(fs.drop_last()) + data_xml(fs.last())
    }
}

/// One `<record>` element; the leader's bytes are its text, verbatim.
pub open spec fn record_xml(r: RecordModel) -> Seq<char> {
    "<record xmlns=\"http://www.loc.gov/MARC21/slim\"><leader>"@ + decode_utf8(
        r.leader.spec_bytes(),
    ) + "</leader>"@ + controls_xml(r.control_fields) + datas_xml(r.data_fields) + "</record>"@
}

/// The `<record>` elements of records whose leaders are text, or `None`.
pub open spec fn records_xml(rs: Seq<RecordModel>) -> Option<Seq<char>>
    decreases rs.len(),
{
    if rs.len() == 0 {
        Some(Seq::empty())
    } else {
        match records_xml(rs.drop_last()) {
            None => None,
            Some(a) => if valid_utf8(rs.last().leader.spec_bytes()) {
                Some(a + record_xml(rs.last()))
            } else {
                None
            },
        }
    }
}

pub open spec fn xml_declaration() -> Seq<char> {
    "<?xml version=\"1.0\" encoding=\"UTF-8\"?>"@
}

/// The MARCXML document for records: the declaration, then a single
/// `<record>`, or several wrapped in a `<collection>`.
pub open spec fn xml_document(rs: Seq<RecordModel>) -> Option<Seq<char>> {
    match records_xml(rs) {
        None => None,
        Some(body) => if rs.len() > 1 {
            Some(
                xml_declaration() + "<collection xmlns=\"http://www.loc.gov/MARC21/slim\">"@ + body
                    + "</collection>"@,
            )
        } else {
            Some(xml_declaration() + body)
        },
    }
}

fn escape_char(c: char) -> (r: String)
    ensures
        r@ == xml_escaped(seq![c]),
{
    let mut s = String::new();
    push_char(&mut s, c);
    proof {
        assert(s@ =~= seq![c]);
        assert(seq![c].drop_last() =~= Seq::<char>::empty());
    }
    escape(s.as_str())
}

fn write_subfield(out: &mut String, s: &Subfield)
    ensures
        final(out)@ == old(out)@ + subfield_xml(s@),
{
    out.append("<subfield code=\"");
    out.append(escape_char(s.code).as_str());
    out.append("\">");
    out.append(escape(s.value.as_str()).as_str());
    out.append("</subfield>");
    proof {
        assert(final(out)@ =~= old(out)@ + subfield_xml(s@));
    }
}

fn write_control_field(out: &mut String, f: &ControlField)
    ensures
        final(out)@ == old(out)@ + control_xml(f@),
{
    out.append("<controlfield tag=\"");
    out.append(escape(f.tag.as_str()).as_str());
    out.append("\">");
    out.append(escape(f.value.as_str()).as_str());
    out.append("</controlfield>");
    proof {
        assert(final(out)@ =~= old(out)@ + control_xml(f@));
    }
}

fn write_data_field(out: &mut String, f: &DataField)
    ensures
        final(out)@ == old(out)@ + data_xml(f@),
{
    let ghost sfs = f@.subfields;
    out.append("<datafield tag=\"");
    out.append(escape(f.tag.as_str()).as_str());
    out.append("\" ind1=\"");
    out.append(escape_char(f.ind1).as_str());
    out.append("\" ind2=\"");
    out.append(escape_char(f.ind2).as_str());
    out.append("\">");
    let ghost head = out@;
    let mut i: usize = 0;
    while i < f.subfields.len()
        invariant
            sfs == f@.subfields,
            0 <= i <= f.subfields@.len(),
            out@ == head + subfields_xml(sfs.take(i as int)),
        decreases f.subfields.len() - i,
    {
        write_subfield(out, &f.subfields[i]);
        proof {
            assert(sfs.take(i + 1).drop_last() =~= sfs.take(i as int));
            assert(out@ =~= head + subfields_xml(sfs.take(i + 1)));
        }
        i = i + 1;
    }
    out.append("</datafield>");
    proof {
        assert(sfs.take(i as int) =~= sfs);
        assert(final(out)@ =~= old(out)@ + data_xml(f@));
    }
}

#[verifier::rlimit(60)]
fn write_record_xml(out: &mut String, r: &Record) -> (res: Result<(), WriteError>)
    ensures
        valid_utf8(r@.leader.spec_bytes()) ==> (res.is_ok() && final(out)@ == old(out)@
            + record_xml(r@)),
        !valid_utf8(r@.leader.spec_bytes()) ==> (res matches Err(e) && e.fault()
            == WriteFault::Other && final(out)@ == old(out)@),
{
    let ghost rm = r@;
    let leader_text = match string_from_utf8(r.leader.to_bytes()) {
        Some(t) => t,
        None => {
            return Err(WriteError::Other("leader is not UTF-8".to_owned()));
        },
    };
    out.append("<record xmlns=\"http://www.loc.gov/MARC21/slim\"><leader>");
    out.append(leader_text.as_str());
    out.append("</leader>");
    let ghost head = out@;
    let mut i: usize = 0;
    while i < r.control_fields.len()
        invariant
            rm == r@,
            0 <= i <= r.control_fields@.len(),
            out@ == head + controls_xml(rm.control_fields.take(i as int)),
        decreases r.control_fields.len() - i,
    {
        write_control_field(out, &r.control_fields[i]);
        proof {
            assert(rm.control_fields.take(i + 1).drop_last() =~= rm.control_fields.take(i as int));
            assert(out@ =~= head + controls_xml(rm.control_fields.take(i + 1)));
        }
        i = i + 1;
    }
    proof {
        assert(rm.control_fields.take(i as int) =~= rm.control_fields);
    }
    let ghost mid = out@;
    let mut j: usize = 0;
    while j < r.data_fields.len()
        invariant
            rm == r@,
            0 <= j <= r.data_fields@.len(),
            out@ == mid + datas_xml(rm.data_fields.take(j as int)),
        decreases r.data_fields.len() - j,
    {
        write_data_field(out, &r.data_fields[j]);
        proof {
            assert(rm.data_fields.take(j + 1).drop_last() =~= rm.data_fields.take(j as int));
            assert(out@ =~= mid + datas_xml(rm.data_fields.take(j + 1)));
        }
        j = j + 1;
    }
    out.append("</record>");
    proof {
        assert(rm.data_fields.take(j as int) =~= rm.data_fields);
        assert(final(out)@ =~= old(out)@ + record_xml(rm));
    }
    Ok(())
}

proof fn lemma_records_xml_stuck(rs: Seq<RecordModel>, k: int)
    requires
        0 <= k <= rs.len(),
        records_xml(rs.take(k)) is None,
    ensures
        records_xml(rs) is None,
    decreases rs.len() - k,
{
    if k == rs.len() {
        assert(rs.take(k) =~= rs);
    } else {
        assert(rs.take(k + 1).drop_last() =~= rs.take(k));
        lemma_records_xml_stuck(rs, k + 1);
    }
}

/// Appends the MARCXML document for the records, as UTF-8; nothing is
/// appended when a leader's bytes are not text.
#[verifier::rlimit(60)]
pub fn write_marc_xml(
    records: &[Record],
    _format_encoding: FormatEncoding,
    output: &mut Vec<u8>,
) -> (r: Result<(), WriteError>)
    ensures
        match xml_document(records_model(records@)) {
            Some(doc) => r.is_ok() && final(output)@ == old(output)@ + encode_utf8(doc),
            None => r matches Err(e) && e.fault() == WriteFault::Other && final(output)@ == old(
                output,
            )@,
        },
{
    let ghost rs = records_model(records@);
    let mut body = String::new();
    let mut i: usize = 0;
    while i < records.len()
        invariant
            rs == records_model(records@),
            0 <= i <= records@.len(),
            records_xml(rs.take(i as int)) == Some(body@),
        decreases records.len() - i,
    {
        proof {
            assert(rs.take(i + 1).drop_last() =~= rs.take(i as int));
            assert(rs.take(i + 1).last() == records@[i as int]@);
        }
        match write_record_xml(&mut body, &records[i]) {
            Ok(()) => {},
            Err(e) => {
                proof {
                    lemma_records_xml_stuck(rs, i + 1);
                }
                return Err(e);
            },
        }
        i = i + 1;
    }
    proof {
        assert(rs.take(i as int) =~= rs);
    }
    let mut doc = String::new();
    doc.append("<?xml version=\"1.0\" encoding=\"UTF-8\"?>");
    if records.len() > 1 {
        doc.append("<collection xmlns=\"http://www.loc.gov/MARC21/slim\">");
        doc.append(body.as_str());
        doc.append("</collection>");
    } else {
        doc.append(body.as_str());
    }
    proof {
        assert(doc@ =~= xml_document(rs)->0);
    }
    append_bytes(output, doc.as_str().as_bytes());
    Ok(())
}

} // verus!
