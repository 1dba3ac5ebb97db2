//! The attendance response: the student's absence records.
//!
//! The document nests `Attendance` → `Absences` → `Absence`*, each absence
//! carrying its date, reason and note as text.

use vstd::prelude::*;
use crate::error::VueError;
use crate::xml::{
    XmlNode, Node, node_view, kid_text, find_kid, spec_parse_document, parse_document, get_text,
    string_eq_str, text_node, text_node_exec, wf_node, wf_text, wf_name, node_to_string, ser_node,
    lemma_nodes_view_push, names_field,
};

verus! {

/// One absence record.
#[derive(Debug, PartialEq)]
pub struct Absence {
    pub absence_date: String,
    pub reason: String,
    pub note: String,
}

pub struct AbsenceV {
    pub absence_date: Seq<char>,
    pub reason: Seq<char>,
    pub note: Seq<char>,
}

impl View for Absence {
    type V = AbsenceV;

    open spec fn view(&self) -> AbsenceV {
        AbsenceV { absence_date: self.absence_date@, reason: self.reason@, note: self.note@ }
    }
}

/// The absence list.
#[derive(Debug, PartialEq)]
pub struct Absences {
    pub absence: Vec<Absence>,
}

pub struct AbsencesV {
    pub absence: Seq<AbsenceV>,
}

impl View for Absences {
    type V = AbsencesV;

    open spec fn view(&self) -> AbsencesV {
        AbsencesV { absence: self.absence@.map_values(|a: Absence| a@) }
    }
}

/// The attendance record itself.
#[derive(Debug, PartialEq)]
pub struct Attendance {
    pub absences: Absences,
}

pub struct AttendanceV {
    pub absences: AbsencesV,
}

impl View for Attendance {
    type V = AttendanceV;

    open spec fn view(&self) -> AttendanceV {
        AttendanceV { absences: self.absences@ }
    }
}

/// The whole attendance response document.
#[derive(Debug, PartialEq)]
pub struct AttData {
    pub attendance: Attendance,
}

pub struct AttDataV {
    pub attendance: AttendanceV,
}

impl View for AttData {
    type V = AttDataV;

    open spec fn view(&self) -> AttDataV {
        AttDataV { attendance: self.attendance@ }
    }
}

/// What an `Absence` element decodes to: its three text fields, or the
/// name of the first field that is missing.
pub open spec fn absence_of_node(n: XmlNode) -> Result<AbsenceV, Seq<char>> {
    match (kid_text(n, "AbsenceDate"@), kid_text(n, "Reason"@), kid_text(n, "Note"@)) {
        (Some(absence_date), Some(reason), Some(note)) => Ok(
            AbsenceV { absence_date, reason, note },
        ),
        (None, _, _) => Err("AbsenceDate"@),
        (Some(_), None, _) => Err("Reason"@),
        (Some(_), Some(_), None) => Err("Note"@),
    }
}

/// The decoded `Absence` children among `ks`, in document order; zero
/// repetitions decode to the empty sequence, not an error.
pub open spec fn absences_in(ks: Seq<XmlNode>) -> Result<Seq<AbsenceV>, Seq<char>>
    decreases ks,
{
    if ks.len() == 0 {
        Ok(Seq::<AbsenceV>::empty())
    } else if ks.first().name == "Absence"@ {
        match (absence_of_node(ks.first()), absences_in(ks.drop_first())) {
            (Ok(a), Ok(rest)) => Ok(seq![a] + rest),
            (Err(f), _) => Err(f),
            (Ok(_), Err(f)) => Err(f),
        }
    } else {
        absences_in(ks.drop_first())
    }
}

pub open spec fn absences_of_node(n: XmlNode) -> Result<AbsencesV, Seq<char>> {
    match absences_in(n.kids) {
        Ok(la) => Ok(AbsencesV { absence: la }),
        Err(f) => Err(f),
    }
}

pub open spec fn attendance_of_node(n: XmlNode) -> Result<AttendanceV, Seq<char>> {
    match find_kid(n.kids, "Absences"@) {
        Some(a) => match absences_of_node(a) {
            Ok(la) => Ok(AttendanceV { absences: la }),
            Err(f) => Err(f),
        },
        None => Err("Absences"@),
    }
}

pub open spec fn attdata_of_node(n: XmlNode) -> Result<AttDataV, Seq<char>> {
    match find_kid(n.kids, "Attendance"@) {
        Some(a) => match attendance_of_node(a) {
            Ok(at) => Ok(AttDataV { attendance: at }),
            Err(f) => Err(f),
        },
        None => Err("Attendance"@),
    }
}

/// What decoding an attendance document yields: the model, or the name of
/// what was missing or malformed, which the returned error's message
/// carries.
pub open spec fn spec_decode_attendance(s: Seq<char>) -> Result<AttDataV, Seq<char>> {
    match spec_parse_document(s) {
        Some(root) => attdata_of_node(root),
        None => Err("malformed XML document"@),
    }
}

/// Decodes one `Absence` element.
pub fn absence_from_node(n: &Node) -> (r: Result<Absence, VueError>)
    ensures
        match absence_of_node(node_view(*n)) {
            Ok(v) => r matches Ok(a) && a@ == v,
            Err(f) => r matches Err(VueError::Xml(m)) && names_field(m@, f),
        },
{
    let absence_date = match get_text(n, "AbsenceDate") {
        Ok(v) => v,
        Err(e) => return Err(e),
    };
    let reason = match get_text(n, "Reason") {
        Ok(v) => v,
        Err(e) => return Err(e),
    };
    let note = match get_text(n, "Note") {
        Ok(v) => v,
        Err(e) => return Err(e),
    };
    Ok(Absence { absence_date, reason, note })
}

/// Decodes the `Absence` children of an absence list, in document order.
fn absences_list_from_node(n: &Node) -> (r: Result<Vec<Absence>, VueError>)
    ensures
        match absences_in(node_view(*n).kids) {
            Ok(v) => r matches Ok(la) && la@.map_values(|a: Absence| a@) == v,
            Err(f) => r matches Err(VueError::Xml(m)) && names_field(m@, f),
        },
{
    let mut out: Vec<Absence> = Vec::new();
    let mut i: usize = 0;
    proof {
        assert(n.kids@.skip(0) =~= n.kids@);
        assert(out@.map_values(|a: Absence| a@) =~= Seq::<AbsenceV>::empty());
    }
    while i < n.kids.len()
        invariant
            0 <= i <= n.kids@.len(),
            absences_in(crate::xml::nodes_view(n.kids@)) == match absences_in(
                crate::xml::nodes_view(n.kids@.skip(i as int)),
            ) {
                Ok(rest) => Ok(out@.map_values(|a: Absence| a@) + rest),
                Err(f) => Err::<Seq<AbsenceV>, Seq<char>>(f),
            },
        decreases n.kids@.len() - i,
    {
        proof {
            let suf = n.kids@.skip(i as int);
            assert(suf.first() == n.kids@[i as int]);
            assert(suf.drop_first() =~= n.kids@.skip(i as int + 1));
            assert(crate::xml::nodes_view(suf).first() == node_view(n.kids@[i as int]));
            assert(crate::xml::nodes_view(suf).drop_first() =~= crate::xml::nodes_view(
                n.kids@.skip(i as int + 1),
            ));
        }
        if string_eq_str(&n.kids[i].name, "Absence") {
            match absence_from_node(&n.kids[i]) {
                Ok(a) => {
                    let ghost pre = out@;
                    out.push(a);
                    proof {
                        assert(out@.map_values(|a: Absence| a@) =~= pre.map_values(
                            |a: Absence| a@,
                        ).push(a@));
                        assert forall|rest: Seq<AbsenceV>|
                            pre.map_values(|a: Absence| a@) + (seq![a@] + rest)
                                =~= out@.map_values(|a: Absence| a@) + rest by {}
                    }
                },
                Err(e) => return Err(e),
            }
        }
        i = i + 1;
    }
    proof {
        assert(n.kids@.skip(n.kids@.len() as int) =~= Seq::<Node>::empty());
        assert(crate::xml::nodes_view(Seq::<Node>::empty()) =~= Seq::<XmlNode>::empty());
        assert(absences_in(Seq::<XmlNode>::empty()) == Ok::<Seq<AbsenceV>, Seq<char>>(
            Seq::<AbsenceV>::empty(),
        ));
        assert(out@.map_values(|a: Absence| a@) + Seq::<AbsenceV>::empty() =~= out@.map_values(
            |a: Absence| a@,
        ));
    }
    Ok(out)
}

fn missing_part(name: &str) -> (r: VueError)
    ensures
        r matches VueError::Xml(m) && names_field(m@, name@),
{
    crate::xml::field_error("missing required field: ", name)
}

/// Decodes a whole attendance document, exactly as `spec_decode_attendance`
/// states; an error's message names what was missing or malformed.
pub fn decode_attendance(xml: &str) -> (r: Result<AttData, VueError>)
    ensures
        match spec_decode_attendance(xml@) {
            Ok(v) => r matches Ok(a) && a@ == v,
            Err(f) => r matches Err(VueError::Xml(m)) && names_field(m@, f),
        },
{
    let root = match parse_document(xml) {
        Some(root) => root,
        None => {
            let msg = "malformed XML document".to_owned();
            proof {
                let f = "malformed XML document"@;
                assert(names_field(msg@, f)) by {
                    assert(msg@.subrange(0, 0 + f.len() as int) =~= f);
                }
            }
            return Err(VueError::Xml(msg));
        },
    };
    let att_node = match crate::xml::find_kid_exec(&root, "Attendance") {
        Some(a) => a,
        None => {
            return Err(missing_part("Attendance"));
        },
    };
    let abs_node = match crate::xml::find_kid_exec(att_node, "Absences") {
        Some(a) => a,
        None => {
            return Err(missing_part("Absences"));
        },
    };
    let absence = match absences_list_from_node(abs_node) {
        Ok(la) => la,
        Err(e) => {
            return Err(e);
        },
    };
    Ok(AttData { attendance: Attendance { absences: Absences { absence } } })
}

/// The canonical element for one absence record.
pub open spec fn node_of_absence(a: AbsenceV) -> XmlNode {
    XmlNode {
        name: "Absence"@,
        kids: seq![
            text_node("AbsenceDate"@, a.absence_date),
            text_node("Reason"@, a.reason),
            text_node("Note"@, a.note),
        ],
        text: Seq::<char>::empty(),
    }
}

pub open spec fn absence_nodes(la: Seq<AbsenceV>) -> Seq<XmlNode>
    decreases la,
{
    if la.len() == 0 {
        Seq::<XmlNode>::empty()
    } else {
        seq![node_of_absence(la.first())] + absence_nodes(la.drop_first())
    }
}

pub open spec fn node_of_absences(la: AbsencesV) -> XmlNode {
    XmlNode { name: "Absences"@, kids: absence_nodes(la.absence), text: Seq::<char>::empty() }
}

pub open spec fn node_of_attendance(at: AttendanceV) -> XmlNode {
    XmlNode {
        name: "Attendance"@,
        kids: seq![node_of_absences(at.absences)],
        text: Seq::<char>::empty(),
    }
}

/// The canonical document for a whole attendance record.
pub open spec fn node_of_attdata(a: AttDataV) -> XmlNode {
    XmlNode {
        name: "AttData"@,
        kids: seq![node_of_attendance(a.attendance)],
        text: Seq::<char>::empty(),
    }
}

/// An absence record the wire can carry back and forth: all three texts are
/// markup-free.
pub open spec fn wf_absence(a: AbsenceV) -> bool {
    wf_text(a.absence_date) && wf_text(a.reason) && wf_text(a.note)
}

pub open spec fn wf_attdata(a: AttDataV) -> bool {
    forall|i: int|
        0 <= i < a.attendance.absences.absence.len() ==> wf_absence(
            #[trigger] a.attendance.absences.absence[i],
        )
}

proof fn lemma_absence_nodes_push(la: Seq<AbsenceV>, a: AbsenceV)
    ensures
        absence_nodes(la.push(a)) == absence_nodes(la).push(node_of_absence(a)),
    decreases la.len(),
{
    if la.len() == 0 {
        assert(la.push(a).drop_first() =~= Seq::<AbsenceV>::empty());
        assert(absence_nodes(Seq::<AbsenceV>::empty()) =~= Seq::<XmlNode>::empty());
        assert(absence_nodes(la.push(a)) =~= absence_nodes(la).push(node_of_absence(a)));
    } else {
        assert(la.push(a).drop_first() =~= la.drop_first().push(a));
        lemma_absence_nodes_push(la.drop_first(), a);
        assert(absence_nodes(la.push(a)) =~= absence_nodes(la).push(node_of_absence(a)));
    }
}

/// Builds the canonical element for one absence record.
pub fn absence_to_node(a: &Absence) -> (r: Node)
    ensures
        node_view(r) == node_of_absence(a@),
{
    let t1 = text_node_exec("AbsenceDate", a.absence_date.clone());
    let ghost t1g: Node = t1;
    let t2 = text_node_exec("Reason", a.reason.clone());
    let ghost t2g: Node = t2;
    let t3 = text_node_exec("Note", a.note.clone());
    let ghost t3g: Node = t3;
    let mut kids: Vec<Node> = Vec::new();
    kids.push(t1);
    kids.push(t2);
    kids.push(t3);
    proof {
        assert(kids@ =~= seq![t1g, t2g, t3g]);
        assert(kids@.first() == t1g);
        assert(kids@.drop_first() =~= seq![t2g, t3g]);
        assert(seq![t2g, t3g].drop_first() =~= seq![t3g]);
        assert(seq![t3g].drop_first() =~= Seq::<Node>::empty());
        assert(crate::xml::nodes_view(Seq::<Node>::empty()) =~= Seq::<XmlNode>::empty());
        assert(crate::xml::nodes_view(seq![t3g]) =~= seq![node_view(t3g)]);
        assert(crate::xml::nodes_view(seq![t2g, t3g]) =~= seq![node_view(t2g), node_view(t3g)]);
        assert(crate::xml::nodes_view(kids@) =~= node_of_absence(a@).kids);
    }
    Node { name: "Absence".to_owned(), kids, text: String::new() }
}

/// Builds the canonical document for a whole attendance record.
pub fn attdata_to_node(a: &AttData) -> (r: Node)
    ensures
        node_view(r) == node_of_attdata(a@),
{
    let recs = &a.attendance.absences.absence;
    let mut abs_kids: Vec<Node> = Vec::new();
    proof {
        assert(crate::xml::nodes_view(abs_kids@) =~= Seq::<XmlNode>::empty());
        assert(recs@.subrange(0, 0).map_values(|x: Absence| x@) =~= Seq::<AbsenceV>::empty());
        assert(absence_nodes(Seq::<AbsenceV>::empty()) =~= Seq::<XmlNode>::empty());
    }
    let mut i: usize = 0;
    while i < recs.len()
        invariant
            0 <= i <= recs@.len(),
            crate::xml::nodes_view(abs_kids@) == absence_nodes(
                recs@.subrange(0, i as int).map_values(|x: Absence| x@),
            ),
        decreases recs@.len() - i,
    {
        let child = absence_to_node(&recs[i]);
        let ghost childg: Node = child;
        let ghost pre = abs_kids@;
        abs_kids.push(child);
        proof {
            lemma_nodes_view_push(pre, childg);
            let pv = recs@.subrange(0, i as int).map_values(|x: Absence| x@);
            lemma_absence_nodes_push(pv, recs@[i as int]@);
            assert(recs@.subrange(0, i as int + 1).map_values(|x: Absence| x@) =~= pv.push(
                recs@[i as int]@,
            ));
        }
        i = i + 1;
    }
    proof {
        assert(recs@.subrange(0, recs@.len() as int) =~= recs@);
        assert(crate::xml::nodes_view(abs_kids@) == absence_nodes(a@.attendance.absences.absence));
    }
    let absences_node = Node { name: "Absences".to_owned(), kids: abs_kids, text: String::new() };
    let ghost absg: Node = absences_node;
    proof {
        assert(node_view(absg) == node_of_absences(a@.attendance.absences));
    }
    let mut att_kids: Vec<Node> = Vec::new();
    att_kids.push(absences_node);
    proof {
        assert(att_kids@ =~= seq![absg]);
        assert(seq![absg].drop_first() =~= Seq::<Node>::empty());
        assert(crate::xml::nodes_view(Seq::<Node>::empty()) =~= Seq::<XmlNode>::empty());
        assert(crate::xml::nodes_view(att_kids@) =~= seq![node_of_absences(a@.attendance.absences)]);
    }
    let att_node = Node { name: "Attendance".to_owned(), kids: att_kids, text: String::new() };
    let ghost attg: Node = att_node;
    proof {
        assert(node_view(attg) == node_of_attendance(a@.attendance));
    }
    let mut root_kids: Vec<Node> = Vec::new();
    root_kids.push(att_node);
    proof {
        assert(root_kids@ =~= seq![attg]);
        assert(seq![attg].drop_first() =~= Seq::<Node>::empty());
        assert(crate::xml::nodes_view(Seq::<Node>::empty()) =~= Seq::<XmlNode>::empty());
        assert(crate::xml::nodes_view(root_kids@) =~= seq![node_of_attendance(a@.attendance)]);
    }
    Node { name: "AttData".to_owned(), kids: root_kids, text: String::new() }
}

/// The reference serializer for attendance documents.
pub fn encode_attendance(a: &AttData) -> (r: String)
    ensures
        r@ == ser_node(node_of_attdata(a@)),
{
    let n = attdata_to_node(a);
    node_to_string(&n)
}

pub proof fn lemma_absence_inv(a: AbsenceV)
    requires
        wf_absence(a),
    ensures
        wf_node(node_of_absence(a)),
        absence_of_node(node_of_absence(a)) == Ok::<AbsenceV, Seq<char>>(a),
{
    reveal_strlit("Absence");
    reveal_strlit("AbsenceDate");
    reveal_strlit("Reason");
    reveal_strlit("Note");
    let n = node_of_absence(a);
    let t1 = text_node("AbsenceDate"@, a.absence_date);
    let t2 = text_node("Reason"@, a.reason);
    let t3 = text_node("Note"@, a.note);
    let k0 = n.kids;
    let k1 = k0.drop_first();
    let k2 = k1.drop_first();
    assert(k0.first() == t1);
    assert(k1 =~= seq![t2, t3]);
    assert(k1.first() == t2);
    assert(k2 =~= seq![t3]);
    assert(k2.first() == t3);
    assert(k2.drop_first() =~= Seq::<XmlNode>::empty());
    assert(wf_name("Absence"@));
    assert(wf_name("AbsenceDate"@));
    assert(wf_name("Reason"@));
    assert(wf_name("Note"@));
    crate::xml::lemma_text_node_wf("AbsenceDate"@, a.absence_date);
    crate::xml::lemma_text_node_wf("Reason"@, a.reason);
    crate::xml::lemma_text_node_wf("Note"@, a.note);
    assert(crate::xml::wf_kids(Seq::<XmlNode>::empty()));
    assert(crate::xml::wf_kids(k2));
    assert(crate::xml::wf_kids(k1));
    assert(crate::xml::wf_kids(k0));
    assert(wf_node(n));
    assert(find_kid(k0, "AbsenceDate"@) == Some(t1));
    assert(kid_text(n, "AbsenceDate"@) == Some(a.absence_date));
    assert(find_kid(k0, "Reason"@) == find_kid(k1, "Reason"@));
    assert(find_kid(k1, "Reason"@) == Some(t2));
    assert(kid_text(n, "Reason"@) == Some(a.reason));
    assert(find_kid(k0, "Note"@) == find_kid(k1, "Note"@));
    assert(find_kid(k1, "Note"@) == find_kid(k2, "Note"@));
    assert(find_kid(k2, "Note"@) == Some(t3));
    assert(kid_text(n, "Note"@) == Some(a.note));
    assert(absence_of_node(n) == Ok::<AbsenceV, Seq<char>>(
        AbsenceV { absence_date: a.absence_date, reason: a.reason, note: a.note },
    ));
}

proof fn lemma_absence_nodes_inv(la: Seq<AbsenceV>)
    requires
        forall|i: int| 0 <= i < la.len() ==> wf_absence(#[trigger] la[i]),
    ensures
        crate::xml::wf_kids(absence_nodes(la)),
        absences_in(absence_nodes(la)) == Ok::<Seq<AbsenceV>, Seq<char>>(la),
    decreases la,
{
    reveal_strlit("Absence");
    if la.len() == 0 {
        assert(absence_nodes(la) =~= Seq::<XmlNode>::empty());
        assert(absences_in(Seq::<XmlNode>::empty()) == Ok::<Seq<AbsenceV>, Seq<char>>(
            Seq::<AbsenceV>::empty(),
        ));
        assert(Seq::<AbsenceV>::empty() =~= la);
    } else {
        lemma_absence_inv(la.first());
        assert(forall|i: int| 0 <= i < la.drop_first().len() ==> wf_absence(
            #[trigger] la.drop_first()[i],
        )) by {
            assert(forall|i: int| 0 <= i < la.drop_first().len() ==> la.drop_first()[i] == la[i
                + 1]);
        }
        lemma_absence_nodes_inv(la.drop_first());
        let ks = absence_nodes(la);
        assert(ks.first() == node_of_absence(la.first()));
        assert(ks.drop_first() =~= absence_nodes(la.drop_first()));
        assert(ks.first().name == "Absence"@);
        assert(absences_in(ks) == Ok::<Seq<AbsenceV>, Seq<char>>(
            seq![la.first()] + la.drop_first(),
        ));
        assert(seq![la.first()] + la.drop_first() =~= la);
    }
}

pub proof fn lemma_attdata_inv(a: AttDataV)
    requires
        wf_attdata(a),
    ensures
        wf_node(node_of_attdata(a)),
        attdata_of_node(node_of_attdata(a)) == Ok::<AttDataV, Seq<char>>(a),
{
    reveal_strlit("AttData");
    reveal_strlit("Attendance");
    reveal_strlit("Absences");
    lemma_absence_nodes_inv(a.attendance.absences.absence);
    let ln = node_of_absences(a.attendance.absences);
    let an = node_of_attendance(a.attendance);
    let n = node_of_attdata(a);
    assert(wf_name("AttData"@));
    assert(wf_name("Attendance"@));
    assert(wf_name("Absences"@));
    assert(wf_node(ln));
    assert(an.kids.first() == ln);
    assert(an.kids.drop_first() =~= Seq::<XmlNode>::empty());
    assert(crate::xml::wf_kids(Seq::<XmlNode>::empty()));
    assert(crate::xml::wf_kids(an.kids));
    assert(wf_node(an));
    assert(n.kids.first() == an);
    assert(n.kids.drop_first() =~= Seq::<XmlNode>::empty());
    assert(crate::xml::wf_kids(n.kids));
    assert(wf_node(n));
    assert(find_kid(n.kids, "Attendance"@) == Some(an));
    assert(find_kid(an.kids, "Absences"@) == Some(ln));
    assert(absences_of_node(ln) == Ok::<AbsencesV, Seq<char>>(
        AbsencesV { absence: a.attendance.absences.absence },
    ));
    assert(AbsencesV { absence: a.attendance.absences.absence } == a.attendance.absences);
    assert(attendance_of_node(an) == Ok::<AttendanceV, Seq<char>>(
        AttendanceV { absences: a.attendance.absences },
    ));
    assert(AttendanceV { absences: a.attendance.absences } == a.attendance);
    assert(attdata_of_node(n) == Ok::<AttDataV, Seq<char>>(AttDataV { attendance: a.attendance }));
    assert(AttDataV { attendance: a.attendance } == a);
}

/// Decoding is idempotent on re-parse for the attendance shape.
pub proof fn lemma_attendance_roundtrip(a: AttDataV)
    requires
        wf_attdata(a),
    ensures
        spec_decode_attendance(ser_node(node_of_attdata(a))) == Ok::<AttDataV, Seq<char>>(a),
{
    lemma_attdata_inv(a);
    let n = node_of_attdata(a);
    let w = ser_node(n);
    assert(w.subrange(0, w.len() as int) =~= w);
    crate::xml::lemma_parse_ser_node(n, w, 0);
    assert(crate::xml::spec_parse_node(w, 0) == Some((n, w.len() as int)));
    assert(spec_parse_document(w) == Some(n));
}

} // verus!
