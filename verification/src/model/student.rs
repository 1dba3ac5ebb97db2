//! The student-information response: the student's personal data.
//!
//! The document nests `StudentInfo` with flat fields; the nickname is
//! optional and decodes to an explicit absent state when the document has
//! no such field — never to an empty string and never to an error.

use vstd::prelude::*;
use crate::error::VueError;
use crate::numeric::{dec_str, u64_to_string, lemma_dec_str_val, parse_u64_spec};
use crate::xml::{
    XmlNode, Node, node_view, kid_text, kid_u8, kid_u32, find_kid, spec_parse_document,
    parse_document, get_text, get_opt_text, get_u8, get_u32, text_node, text_node_exec, wf_node,
    wf_text, wf_name, node_to_string, ser_node, names_field,
};

verus! {

/// The student's data.
#[derive(Debug, PartialEq)]
pub struct StudentInfo {
    pub name: String,
    pub id: u32,
    pub gender: String,
    pub grade: u8,
    pub address: String,
    pub nickname: Option<String>,
    pub birth_date: String,
    pub email: String,
    pub phone: String,
    pub current_school: String,
}

pub struct StudentInfoV {
    pub name: Seq<char>,
    pub id: u32,
    pub gender: Seq<char>,
    pub grade: u8,
    pub address: Seq<char>,
    pub nickname: Option<Seq<char>>,
    pub birth_date: Seq<char>,
    pub email: Seq<char>,
    pub phone: Seq<char>,
    pub current_school: Seq<char>,
}

impl View for StudentInfo {
    type V = StudentInfoV;

    open spec fn view(&self) -> StudentInfoV {
        StudentInfoV {
            name: self.name@,
            id: self.id,
            gender: self.gender@,
            grade: self.grade,
            address: self.address@,
            nickname: match self.nickname {
                Some(n) => Some(n@),
                None => None,
            },
            birth_date: self.birth_date@,
            email: self.email@,
            phone: self.phone@,
            current_school: self.current_school@,
        }
    }
}

/// The whole student-information response document.
#[derive(Debug, PartialEq)]
pub struct Student {
    pub student_info: StudentInfo,
}

pub struct StudentV {
    pub student_info: StudentInfoV,
}

impl View for Student {
    type V = StudentV;

    open spec fn view(&self) -> StudentV {
        StudentV { student_info: self.student_info@ }
    }
}

/// What a `StudentInfo` element decodes to, or the name of the first field
/// that is missing or malformed.  The nickname is simply the named field's
/// text where present and absent otherwise; every other field is required.
pub open spec fn student_info_of_node(n: XmlNode) -> Result<StudentInfoV, Seq<char>> {
    match (
        kid_text(n, "FormattedName"@),
        kid_u32(n, "PermID"@),
        kid_text(n, "Gender"@),
        kid_u8(n, "Grade"@),
        kid_text(n, "Address"@),
        kid_text(n, "BirthDate"@),
        kid_text(n, "EMail"@),
        kid_text(n, "Phone"@),
        kid_text(n, "CurrentSchool"@),
    ) {
        (
            Some(name),
            Some(id),
            Some(gender),
            Some(grade),
            Some(address),
            Some(birth_date),
            Some(email),
            Some(phone),
            Some(current_school),
        ) => Ok(
            StudentInfoV {
                name,
                id,
                gender,
                grade,
                address,
                nickname: kid_text(n, "Nickname"@),
                birth_date,
                email,
                phone,
                current_school,
            },
        ),
        (None, _, _, _, _, _, _, _, _) => Err("FormattedName"@),
        (Some(_), None, _, _, _, _, _, _, _) => Err("PermID"@),
        (Some(_), Some(_), None, _, _, _, _, _, _) => Err("Gender"@),
        (Some(_), Some(_), Some(_), None, _, _, _, _, _) => Err("Grade"@),
        (Some(_), Some(_), Some(_), Some(_), None, _, _, _, _) => Err("Address"@),
        (Some(_), Some(_), Some(_), Some(_), Some(_), None, _, _, _) => Err("BirthDate"@),
        (Some(_), Some(_), Some(_), Some(_), Some(_), Some(_), None, _, _) => Err("EMail"@),
        (Some(_), Some(_), Some(_), Some(_), Some(_), Some(_), Some(_), None, _) => Err("Phone"@),
        (Some(_), Some(_), Some(_), Some(_), Some(_), Some(_), Some(_), Some(_), None) => Err(
            "CurrentSchool"@,
        ),
    }
}

pub open spec fn student_of_node(n: XmlNode) -> Result<StudentV, Seq<char>> {
    match find_kid(n.kids, "StudentInfo"@) {
        Some(s) => match student_info_of_node(s) {
            Ok(si) => Ok(StudentV { student_info: si }),
            Err(f) => Err(f),
        },
        None => Err("StudentInfo"@),
    }
}

/// What decoding a student-information document yields: the model, or the
/// name of what was missing or malformed, which the returned error's
/// message carries.
pub open spec fn spec_decode_student(s: Seq<char>) -> Result<StudentV, Seq<char>> {
    match spec_parse_document(s) {
        Some(root) => student_of_node(root),
        None => Err("malformed XML document"@),
    }
}

fn missing_part(name: &str) -> (r: VueError)
    ensures
        r matches VueError::Xml(m) && names_field(m@, name@),
{
    crate::xml::field_error("missing required field: ", name)
}

/// Decodes a whole student-information document, exactly as
/// `spec_decode_student` states; an error's message names what was missing
/// or malformed.
pub fn decode_student(xml: &str) -> (r: Result<Student, VueError>)
    ensures
        match spec_decode_student(xml@) {
            Ok(v) => r matches Ok(s) && s@ == v,
            Err(f) => r matches Err(VueError::Xml(m)) && names_field(m@, f),
        },
{
    let root = match parse_document(xml) {
        Some(root) => root,
        None => {
            let msg = "malformed XML document".to_owned();
            proof {
                let f = "malformed XML document"@;
                assert(names_field(msg@, f)) by {
                    assert(msg@.subrange(0, 0 + f.len() as int) =~= f);
                }
            }
            return Err(VueError::Xml(msg));
        },
    };
    let info_node = match crate::xml::find_kid_exec(&root, "StudentInfo") {
        Some(s) => s,
        None => {
            return Err(missing_part("StudentInfo"));
        },
    };
    let name = match get_text(info_node, "FormattedName") {
        Ok(v) => v,
        Err(e) => return Err(e),
    };
    let id = match get_u32(info_node, "PermID") {
        Ok(v) => v,
        Err(e) => return Err(e),
    };
    let gender = match get_text(info_node, "Gender") {
        Ok(v) => v,
        Err(e) => return Err(e),
    };
    let grade = match get_u8(info_node, "Grade") {
        Ok(v) => v,
        Err(e) => return Err(e),
    };
    let address = match get_text(info_node, "Address") {
        Ok(v) => v,
        Err(e) => return Err(e),
    };
    let nickname = get_opt_text(info_node, "Nickname");
    let birth_date = match get_text(info_node, "BirthDate") {
        Ok(v) => v,
        Err(e) => return Err(e),
    };
    let email = match get_text(info_node, "EMail") {
        Ok(v) => v,
        Err(e) => return Err(e),
    };
    let phone = match get_text(info_node, "Phone") {
        Ok(v) => v,
        Err(e) => return Err(e),
    };
    let current_school = match get_text(info_node, "CurrentSchool") {
        Ok(v) => v,
        Err(e) => return Err(e),
    };
    Ok(
        Student {
            student_info: StudentInfo {
                name,
                id,
                gender,
                grade,
                address,
                nickname,
                birth_date,
                email,
                phone,
                current_school,
            },
        },
    )
}

/// The canonical element for the student's data.  The nickname field is
/// emitted only where the model has one.
pub open spec fn node_of_student_info(si: StudentInfoV) -> XmlNode {
    XmlNode {
        name: "StudentInfo"@,
        kids: seq![
            text_node("FormattedName"@, si.name),
            text_node("PermID"@, dec_str(si.id as nat)),
            text_node("Gender"@, si.gender),
            text_node("Grade"@, dec_str(si.grade as nat)),
            text_node("Address"@, si.address),
            text_node("BirthDate"@, si.birth_date),
            text_node("EMail"@, si.email),
            text_node("Phone"@, si.phone),
            text_node("CurrentSchool"@, si.current_school),
        ] + (match si.nickname {
            Some(nick) => seq![text_node("Nickname"@, nick)],
            None => Seq::<XmlNode>::empty(),
        }),
        text: Seq::<char>::empty(),
    }
}

/// The canonical document for a whole student-information response.
pub open spec fn node_of_student(s: StudentV) -> XmlNode {
    XmlNode {
        name: "Student"@,
        kids: seq![node_of_student_info(s.student_info)],
        text: Seq::<char>::empty(),
    }
}

pub open spec fn wf_student(s: StudentV) -> bool {
    wf_text(s.student_info.name) && wf_text(s.student_info.gender) && wf_text(
        s.student_info.address,
    ) && wf_text(s.student_info.birth_date) && wf_text(s.student_info.email) && wf_text(
        s.student_info.phone,
    ) && wf_text(s.student_info.current_school) && match s.student_info.nickname {
        Some(nick) => wf_text(nick),
        None => true,
    }
}

/// Builds the canonical document for a whole student-information response.
pub fn student_to_node(s: &Student) -> (r: Node)
    ensures
        node_view(r) == node_of_student(s@),
{
    let si = &s.student_info;
    let t1 = text_node_exec("FormattedName", si.name.clone());
    let ghost t1g: Node = t1;
    let t2 = text_node_exec("PermID", u64_to_string(si.id as u64));
    let ghost t2g: Node = t2;
    let t3 = text_node_exec("Gender", si.gender.clone());
    let ghost t3g: Node = t3;
    let t4 = text_node_exec("Grade", u64_to_string(si.grade as u64));
    let ghost t4g: Node = t4;
    let t5 = text_node_exec("Address", si.address.clone());
    let ghost t5g: Node = t5;
    let t6 = text_node_exec("BirthDate", si.birth_date.clone());
    let ghost t6g: Node = t6;
    let t7 = text_node_exec("EMail", si.email.clone());
    let ghost t7g: Node = t7;
    let t8 = text_node_exec("Phone", si.phone.clone());
    let ghost t8g: Node = t8;
    let t9 = text_node_exec("CurrentSchool", si.current_school.clone());
    let ghost t9g: Node = t9;
    let mut kids: Vec<Node> = Vec::new();
    kids.push(t1);
    kids.push(t2);
    kids.push(t3);
    kids.push(t4);
    kids.push(t5);
    kids.push(t6);
    kids.push(t7);
    kids.push(t8);
    kids.push(t9);
    proof {
        assert(kids@ =~= seq![t1g, t2g, t3g, t4g, t5g, t6g, t7g, t8g, t9g]);
        assert(kids@.first() == t1g);
        assert(kids@.drop_first() =~= seq![t2g, t3g, t4g, t5g, t6g, t7g, t8g, t9g]);
        assert(seq![t2g, t3g, t4g, t5g, t6g, t7g, t8g, t9g].drop_first() =~= seq![
            t3g, t4g, t5g, t6g, t7g, t8g, t9g,
        ]);
        assert(seq![t3g, t4g, t5g, t6g, t7g, t8g, t9g].drop_first() =~= seq![
            t4g, t5g, t6g, t7g, t8g, t9g,
        ]);
        assert(seq![t4g, t5g, t6g, t7g, t8g, t9g].drop_first() =~= seq![t5g, t6g, t7g, t8g, t9g]);
        assert(seq![t5g, t6g, t7g, t8g, t9g].drop_first() =~= seq![t6g, t7g, t8g, t9g]);
        assert(seq![t6g, t7g, t8g, t9g].drop_first() =~= seq![t7g, t8g, t9g]);
        assert(seq![t7g, t8g, t9g].drop_first() =~= seq![t8g, t9g]);
        assert(seq![t8g, t9g].drop_first() =~= seq![t9g]);
        assert(seq![t9g].drop_first() =~= Seq::<Node>::empty());
        assert(crate::xml::nodes_view(Seq::<Node>::empty()) =~= Seq::<XmlNode>::empty());
        assert(crate::xml::nodes_view(seq![t9g]) =~= seq![node_view(t9g)]);
        assert(crate::xml::nodes_view(seq![t8g, t9g]) =~= seq![node_view(t8g), node_view(t9g)]);
        assert(crate::xml::nodes_view(seq![t7g, t8g, t9g]) =~= seq![
            node_view(t7g),
            node_view(t8g),
            node_view(t9g),
        ]);
        assert(crate::xml::nodes_view(seq![t6g, t7g, t8g, t9g]) =~= seq![
            node_view(t6g),
            node_view(t7g),
            node_view(t8g),
            node_view(t9g),
        ]);
        assert(crate::xml::nodes_view(seq![t5g, t6g, t7g, t8g, t9g]) =~= seq![
            node_view(t5g),
            node_view(t6g),
            node_view(t7g),
            node_view(t8g),
            node_view(t9g),
        ]);
        assert(crate::xml::nodes_view(seq![t4g, t5g, t6g, t7g, t8g, t9g]) =~= seq![
            node_view(t4g),
            node_view(t5g),
            node_view(t6g),
            node_view(t7g),
            node_view(t8g),
            node_view(t9g),
        ]);
        assert(crate::xml::nodes_view(seq![t3g, t4g, t5g, t6g, t7g, t8g, t9g]) =~= seq![
            node_view(t3g),
            node_view(t4g),
            node_view(t5g),
            node_view(t6g),
            node_view(t7g),
            node_view(t8g),
            node_view(t9g),
        ]);
        assert(crate::xml::nodes_view(seq![t2g, t3g, t4g, t5g, t6g, t7g, t8g, t9g]) =~= seq![
            node_view(t2g),
            node_view(t3g),
            node_view(t4g),
            node_view(t5g),
            node_view(t6g),
            node_view(t7g),
            node_view(t8g),
            node_view(t9g),
        ]);
    }
    match &si.nickname {
        Some(nick) => {
            let tn = text_node_exec("Nickname", nick.clone());
            let ghost tng: Node = tn;
            let ghost pre = kids@;
            kids.push(tn);
            proof {
                crate::xml::lemma_nodes_view_push(pre, tng);
                assert(crate::xml::nodes_view(kids@) =~= node_of_student_info(s@.student_info).kids);
            }
        },
        None => {
            proof {
                assert(crate::xml::nodes_view(kids@) =~= node_of_student_info(s@.student_info).kids);
            }
        },
    }
    let info_node = Node { name: "StudentInfo".to_owned(), kids, text: String::new() };
    let ghost infog: Node = info_node;
    proof {
        assert(node_view(infog) == node_of_student_info(s@.student_info));
    }
    let mut root_kids: Vec<Node> = Vec::new();
    root_kids.push(info_node);
    proof {
        assert(root_kids@ =~= seq![infog]);
        assert(seq![infog].drop_first() =~= Seq::<Node>::empty());
        assert(crate::xml::nodes_view(Seq::<Node>::empty()) =~= Seq::<XmlNode>::empty());
        assert(crate::xml::nodes_view(root_kids@) =~= seq![node_of_student_info(s@.student_info)]);
    }
    Node { name: "Student".to_owned(), kids: root_kids, text: String::new() }
}

/// The reference serializer for student-information documents.
pub fn encode_student(s: &Student) -> (r: String)
    ensures
        r@ == ser_node(node_of_student(s@)),
{
    let n = student_to_node(s);
    node_to_string(&n)
}

pub proof fn lemma_student_info_inv(si: StudentInfoV)
    requires
        wf_text(si.name),
        wf_text(si.gender),
        wf_text(si.address),
        wf_text(si.birth_date),
        wf_text(si.email),
        wf_text(si.phone),
        wf_text(si.current_school),
        match si.nickname {
            Some(nick) => wf_text(nick),
            None => true,
        },
    ensures
        wf_node(node_of_student_info(si)),
        student_info_of_node(node_of_student_info(si)) == Ok::<StudentInfoV, Seq<char>>(si),
{
    reveal_strlit("StudentInfo");
    reveal_strlit("FormattedName");
    reveal_strlit("PermID");
    reveal_strlit("Gender");
    reveal_strlit("Grade");
    reveal_strlit("Address");
    reveal_strlit("BirthDate");
    reveal_strlit("EMail");
    reveal_strlit("Phone");
    reveal_strlit("CurrentSchool");
    reveal_strlit("Nickname");
    let n = node_of_student_info(si);
    let t1 = text_node("FormattedName"@, si.name);
    let t2 = text_node("PermID"@, dec_str(si.id as nat));
    let t3 = text_node("Gender"@, si.gender);
    let t4 = text_node("Grade"@, dec_str(si.grade as nat));
    let t5 = text_node("Address"@, si.address);
    let t6 = text_node("BirthDate"@, si.birth_date);
    let t7 = text_node("EMail"@, si.email);
    let t8 = text_node("Phone"@, si.phone);
    let t9 = text_node("CurrentSchool"@, si.current_school);
    let tail = (match si.nickname {
        Some(nick) => seq![text_node("Nickname"@, nick)],
        None => Seq::<XmlNode>::empty(),
    });
    let k0 = n.kids;
    let k1 = k0.drop_first();
    let k2 = k1.drop_first();
    let k3 = k2.drop_first();
    let k4 = k3.drop_first();
    let k5 = k4.drop_first();
    let k6 = k5.drop_first();
    let k7 = k6.drop_first();
    let k8 = k7.drop_first();
    let k9 = k8.drop_first();
    assert(k0.first() == t1);
    assert(k1 =~= seq![t2, t3, t4, t5, t6, t7, t8, t9] + tail);
    assert(k1.first() == t2);
    assert(k2 =~= seq![t3, t4, t5, t6, t7, t8, t9] + tail);
    assert(k2.first() == t3);
    assert(k3 =~= seq![t4, t5, t6, t7, t8, t9] + tail);
    assert(k3.first() == t4);
    assert(k4 =~= seq![t5, t6, t7, t8, t9] + tail);
    assert(k4.first() == t5);
    assert(k5 =~= seq![t6, t7, t8, t9] + tail);
    assert(k5.first() == t6);
    assert(k6 =~= seq![t7, t8, t9] + tail);
    assert(k6.first() == t7);
    assert(k7 =~= seq![t8, t9] + tail);
    assert(k7.first() == t8);
    assert(k8 =~= seq![t9] + tail);
    assert(k8.first() == t9);
    assert(k9 =~= tail);
    lemma_dec_str_val(si.id as nat);
    lemma_dec_str_val(si.grade as nat);
    crate::xml::lemma_digits_text(dec_str(si.id as nat));
    crate::xml::lemma_digits_text(dec_str(si.grade as nat));
    assert(wf_name("StudentInfo"@));
    assert(wf_name("FormattedName"@));
    assert(wf_name("PermID"@));
    assert(wf_name("Gender"@));
    assert(wf_name("Grade"@));
    assert(wf_name("Address"@));
    assert(wf_name("BirthDate"@));
    assert(wf_name("EMail"@));
    assert(wf_name("Phone"@));
    assert(wf_name("CurrentSchool"@));
    assert(wf_name("Nickname"@));
    crate::xml::lemma_text_node_wf("FormattedName"@, si.name);
    crate::xml::lemma_text_node_wf("PermID"@, dec_str(si.id as nat));
    crate::xml::lemma_text_node_wf("Gender"@, si.gender);
    crate::xml::lemma_text_node_wf("Grade"@, dec_str(si.grade as nat));
    crate::xml::lemma_text_node_wf("Address"@, si.address);
    crate::xml::lemma_text_node_wf("BirthDate"@, si.birth_date);
    crate::xml::lemma_text_node_wf("EMail"@, si.email);
    crate::xml::lemma_text_node_wf("Phone"@, si.phone);
    crate::xml::lemma_text_node_wf("CurrentSchool"@, si.current_school);
    assert(crate::xml::wf_kids(Seq::<XmlNode>::empty()));
    match si.nickname {
        Some(nick) => {
            crate::xml::lemma_text_node_wf("Nickname"@, nick);
            assert(tail =~= seq![text_node("Nickname"@, nick)]);
            assert(tail.drop_first() =~= Seq::<XmlNode>::empty());
            assert(crate::xml::wf_kids(tail));
        },
        None => {
            assert(crate::xml::wf_kids(tail));
        },
    }
    assert(crate::xml::wf_kids(k9));
    assert(crate::xml::wf_kids(k8));
    assert(crate::xml::wf_kids(k7));
    assert(crate::xml::wf_kids(k6));
    assert(crate::xml::wf_kids(k5));
    assert(crate::xml::wf_kids(k4));
    assert(crate::xml::wf_kids(k3));
    assert(crate::xml::wf_kids(k2));
    assert(crate::xml::wf_kids(k1));
    assert(crate::xml::wf_kids(k0));
    assert(wf_node(n));
    // same-length names need a differing position
    assert("PermID"@ != "Gender"@) by {
        assert("PermID"@[0] == 'P');
        assert("Gender"@[0] == 'G');
    }
    assert("Grade"@ != "EMail"@) by {
        assert("Grade"@[0] == 'G');
        assert("EMail"@[0] == 'E');
    }
    assert("Grade"@ != "Phone"@) by {
        assert("Grade"@[0] == 'G');
        assert("Phone"@[0] == 'P');
    }
    assert("EMail"@ != "Phone"@) by {
        assert("EMail"@[0] == 'E');
        assert("Phone"@[0] == 'P');
    }
    assert("FormattedName"@ != "CurrentSchool"@) by {
        assert("FormattedName"@[0] == 'F');
        assert("CurrentSchool"@[0] == 'C');
    }
    assert(find_kid(k0, "FormattedName"@) == Some(t1));
    assert(kid_text(n, "FormattedName"@) == Some(si.name));
    assert(find_kid(k0, "PermID"@) == find_kid(k1, "PermID"@));
    assert(find_kid(k1, "PermID"@) == Some(t2));
    assert(kid_u32(n, "PermID"@) == Some(si.id)) by {
        assert(parse_u64_spec(dec_str(si.id as nat)) == Some(si.id as u64));
    }
    assert(find_kid(k0, "Gender"@) == find_kid(k1, "Gender"@));
    assert(find_kid(k1, "Gender"@) == find_kid(k2, "Gender"@));
    assert(find_kid(k2, "Gender"@) == Some(t3));
    assert(kid_text(n, "Gender"@) == Some(si.gender));
    assert(find_kid(k0, "Grade"@) == find_kid(k1, "Grade"@));
    assert(find_kid(k1, "Grade"@) == find_kid(k2, "Grade"@));
    assert(find_kid(k2, "Grade"@) == find_kid(k3, "Grade"@));
    assert(find_kid(k3, "Grade"@) == Some(t4));
    assert(kid_u8(n, "Grade"@) == Some(si.grade)) by {
        assert(parse_u64_spec(dec_str(si.grade as nat)) == Some(si.grade as u64));
    }
    assert(find_kid(k0, "Address"@) == find_kid(k1, "Address"@));
    assert(find_kid(k1, "Address"@) == find_kid(k2, "Address"@));
    assert(find_kid(k2, "Address"@) == find_kid(k3, "Address"@));
    assert(find_kid(k3, "Address"@) == find_kid(k4, "Address"@));
    assert(find_kid(k4, "Address"@) == Some(t5));
    assert(kid_text(n, "Address"@) == Some(si.address));
    assert(find_kid(k0, "BirthDate"@) == find_kid(k1, "BirthDate"@));
    assert(find_kid(k1, "BirthDate"@) == find_kid(k2, "BirthDate"@));
    assert(find_kid(k2, "BirthDate"@) == find_kid(k3, "BirthDate"@));
    assert(find_kid(k3, "BirthDate"@) == find_kid(k4, "BirthDate"@));
    assert(find_kid(k4, "BirthDate"@) == find_kid(k5, "BirthDate"@));
    assert(find_kid(k5, "BirthDate"@) == Some(t6));
    assert(kid_text(n, "BirthDate"@) == Some(si.birth_date));
    assert(find_kid(k0, "EMail"@) == find_kid(k1, "EMail"@));
    assert(find_kid(k1, "EMail"@) == find_kid(k2, "EMail"@));
    assert(find_kid(k2, "EMail"@) == find_kid(k3, "EMail"@));
    assert(find_kid(k3, "EMail"@) == find_kid(k4, "EMail"@));
    assert(find_kid(k4, "EMail"@) == find_kid(k5, "EMail"@));
    assert(find_kid(k5, "EMail"@) == find_kid(k6, "EMail"@));
    assert(find_kid(k6, "EMail"@) == Some(t7));
    assert(kid_text(n, "EMail"@) == Some(si.email));
    assert(find_kid(k0, "Phone"@) == find_kid(k1, "Phone"@));
    assert(find_kid(k1, "Phone"@) == find_kid(k2, "Phone"@));
    assert(find_kid(k2, "Phone"@) == find_kid(k3, "Phone"@));
    assert(find_kid(k3, "Phone"@) == find_kid(k4, "Phone"@));
    assert(find_kid(k4, "Phone"@) == find_kid(k5, "Phone"@));
    assert(find_kid(k5, "Phone"@) == find_kid(k6, "Phone"@));
    assert(find_kid(k6, "Phone"@) == find_kid(k7, "Phone"@));
    assert(find_kid(k7, "Phone"@) == Some(t8));
    assert(kid_text(n, "Phone"@) == Some(si.phone));
    assert(find_kid(k0, "CurrentSchool"@) == find_kid(k1, "CurrentSchool"@));
    assert(find_kid(k1, "CurrentSchool"@) == find_kid(k2, "CurrentSchool"@));
    assert(find_kid(k2, "CurrentSchool"@) == find_kid(k3, "CurrentSchool"@));
    assert(find_kid(k3, "CurrentSchool"@) == find_kid(k4, "CurrentSchool"@));
    assert(find_kid(k4, "CurrentSchool"@) == find_kid(k5, "CurrentSchool"@));
    assert(find_kid(k5, "CurrentSchool"@) == find_kid(k6, "CurrentSchool"@));
    assert(find_kid(k6, "CurrentSchool"@) == find_kid(k7, "CurrentSchool"@));
    assert(find_kid(k7, "CurrentSchool"@) == find_kid(k8, "CurrentSchool"@));
    assert(find_kid(k8, "CurrentSchool"@) == Some(t9));
    assert(kid_text(n, "CurrentSchool"@) == Some(si.current_school));
    assert(find_kid(k0, "Nickname"@) == find_kid(k1, "Nickname"@));
    assert(find_kid(k1, "Nickname"@) == find_kid(k2, "Nickname"@));
    assert(find_kid(k2, "Nickname"@) == find_kid(k3, "Nickname"@));
    assert(find_kid(k3, "Nickname"@) == find_kid(k4, "Nickname"@));
    assert(find_kid(k4, "Nickname"@) == find_kid(k5, "Nickname"@));
    assert(find_kid(k5, "Nickname"@) == find_kid(k6, "Nickname"@));
    assert(find_kid(k6, "Nickname"@) == find_kid(k7, "Nickname"@));
    assert(find_kid(k7, "Nickname"@) == find_kid(k8, "Nickname"@));
    assert(find_kid(k8, "Nickname"@) == find_kid(k9, "Nickname"@));
    match si.nickname {
        Some(nick) => {
            assert(k9.first() == text_node("Nickname"@, nick));
            assert(find_kid(k9, "Nickname"@) == Some(text_node("Nickname"@, nick)));
            assert(kid_text(n, "Nickname"@) == Some(nick));
        },
        None => {
            assert(k9.len() == 0);
            assert(find_kid(k9, "Nickname"@) is None);
            assert(kid_text(n, "Nickname"@) is None);
        },
    }
    assert(student_info_of_node(n) == Ok::<StudentInfoV, Seq<char>>(
        StudentInfoV {
            name: si.name,
            id: si.id,
            gender: si.gender,
            grade: si.grade,
            address: si.address,
            nickname: si.nickname,
            birth_date: si.birth_date,
            email: si.email,
            phone: si.phone,
            current_school: si.current_school,
        },
    ));
}

pub proof fn lemma_student_inv(s: StudentV)
    requires
        wf_student(s),
    ensures
        wf_node(node_of_student(s)),
        student_of_node(node_of_student(s)) == Ok::<StudentV, Seq<char>>(s),
{
    reveal_strlit("Student");
    reveal_strlit("StudentInfo");
    lemma_student_info_inv(s.student_info);
    let inode = node_of_student_info(s.student_info);
    let n = node_of_student(s);
    assert(wf_name("Student"@));
    assert(n.kids.first() == inode);
    assert(n.kids.drop_first() =~= Seq::<XmlNode>::empty());
    assert(crate::xml::wf_kids(Seq::<XmlNode>::empty()));
    assert(crate::xml::wf_kids(n.kids));
    assert(wf_node(n));
    assert(find_kid(n.kids, "StudentInfo"@) == Some(inode));
    assert(student_of_node(n) == Ok::<StudentV, Seq<char>>(
        StudentV { student_info: s.student_info },
    ));
    assert(StudentV { student_info: s.student_info } == s);
}

/// Decoding is idempotent on re-parse for the student-information shape.
pub proof fn lemma_student_roundtrip(s: StudentV)
    requires
        wf_student(s),
    ensures
        spec_decode_student(ser_node(node_of_student(s))) == Ok::<StudentV, Seq<char>>(s),
{
    lemma_student_inv(s);
    let n = node_of_student(s);
    let w = ser_node(n);
    assert(w.subrange(0, w.len() as int) =~= w);
    crate::xml::lemma_parse_ser_node(n, w, 0);
    assert(crate::xml::spec_parse_node(w, 0) == Some((n, w.len() as int)));
    assert(spec_parse_document(w) == Some(n));
}

} // verus!
