//! The school-information response: the school's address-book data and its
//! staff list.
//!
//! The document nests `StudentSchoolInfoListing` → address fields +
//! `StaffLists` → `StaffList`*.  The web-address field is spelled `URL`, in
//! capitals, while its siblings are PascalCase: the external schema's
//! casing is inconsistent per field and is reproduced here field by field.

use vstd::prelude::*;
use crate::error::VueError;
use crate::numeric::{dec_str, u64_to_string, lemma_dec_str_val, parse_u64_spec};
use crate::xml::{
    XmlNode, Node, node_view, kid_text, kid_u32, find_kid, spec_parse_document, parse_document,
    get_text, get_u32, string_eq_str, text_node, text_node_exec, wf_node, wf_text, wf_name,
    node_to_string, ser_node, lemma_nodes_view_push, names_field,
};

verus! {

/// One staff member.
#[derive(Debug, PartialEq)]
pub struct Staff {
    pub name: String,
    pub email: String,
    pub title: String,
    pub phone: String,
}

pub struct StaffV {
    pub name: Seq<char>,
    pub email: Seq<char>,
    pub title: Seq<char>,
    pub phone: Seq<char>,
}

impl View for Staff {
    type V = StaffV;

    open spec fn view(&self) -> StaffV {
        StaffV { name: self.name@, email: self.email@, title: self.title@, phone: self.phone@ }
    }
}

/// The staff list.
#[derive(Debug, PartialEq)]
pub struct StaffList {
    pub staff: Vec<Staff>,
}

pub struct StaffListV {
    pub staff: Seq<StaffV>,
}

impl View for StaffList {
    type V = StaffListV;

    open spec fn view(&self) -> StaffListV {
        StaffListV { staff: self.staff@.map_values(|s: Staff| s@) }
    }
}

/// The school's data.
#[derive(Debug, PartialEq)]
pub struct SchoolInfo {
    pub school_name: String,
    pub principal: String,
    pub school_address: String,
    pub school_city: String,
    pub school_state: String,
    pub school_zip: u32,
    pub phone: String,
    pub url: String,
    pub staff_list: StaffList,
}

pub struct SchoolInfoV {
    pub school_name: Seq<char>,
    pub principal: Seq<char>,
    pub school_address: Seq<char>,
    pub school_city: Seq<char>,
    pub school_state: Seq<char>,
    pub school_zip: u32,
    pub phone: Seq<char>,
    pub url: Seq<char>,
    pub staff_list: StaffListV,
}

impl View for SchoolInfo {
    type V = SchoolInfoV;

    open spec fn view(&self) -> SchoolInfoV {
        SchoolInfoV {
            school_name: self.school_name@,
            principal: self.principal@,
            school_address: self.school_address@,
            school_city: self.school_city@,
            school_state: self.school_state@,
            school_zip: self.school_zip,
            phone: self.phone@,
            url: self.url@,
            staff_list: self.staff_list@,
        }
    }
}

/// The whole school-information response document.
#[derive(Debug, PartialEq)]
pub struct StudentSchoolInfoListing {
    pub school_info: SchoolInfo,
}

pub struct StudentSchoolInfoListingV {
    pub school_info: SchoolInfoV,
}

impl View for StudentSchoolInfoListing {
    type V = StudentSchoolInfoListingV;

    open spec fn view(&self) -> StudentSchoolInfoListingV {
        StudentSchoolInfoListingV { school_info: self.school_info@ }
    }
}

/// What a `StaffList` element decodes to, or the name of the first field
/// that is missing.
pub open spec fn staff_of_node(n: XmlNode) -> Result<StaffV, Seq<char>> {
    match (
        kid_text(n, "Name"@),
        kid_text(n, "EMail"@),
        kid_text(n, "Title"@),
        kid_text(n, "Phone"@),
    ) {
        (Some(name), Some(email), Some(title), Some(phone)) => Ok(
            StaffV { name, email, title, phone },
        ),
        (None, _, _, _) => Err("Name"@),
        (Some(_), None, _, _) => Err("EMail"@),
        (Some(_), Some(_), None, _) => Err("Title"@),
        (Some(_), Some(_), Some(_), None) => Err("Phone"@),
    }
}

/// The decoded `StaffList` children among `ks`, in document order.
pub open spec fn staff_in(ks: Seq<XmlNode>) -> Result<Seq<StaffV>, Seq<char>>
    decreases ks,
{
    if ks.len() == 0 {
        Ok(Seq::<StaffV>::empty())
    } else if ks.first().name == "StaffList"@ {
        match (staff_of_node(ks.first()), staff_in(ks.drop_first())) {
            (Ok(s), Ok(rest)) => Ok(seq![s] + rest),
            (Err(f), _) => Err(f),
            (Ok(_), Err(f)) => Err(f),
        }
    } else {
        staff_in(ks.drop_first())
    }
}

/// What the school-data element decodes to, or the name of the first field
/// that is missing or malformed, in the order the fields are read.
pub open spec fn school_info_of_node(n: XmlNode) -> Result<SchoolInfoV, Seq<char>> {
    match (
        kid_text(n, "School"@),
        kid_text(n, "Principal"@),
        kid_text(n, "SchoolAddress"@),
        kid_text(n, "SchoolCity"@),
        kid_text(n, "SchoolState"@),
        kid_u32(n, "SchoolZip"@),
        kid_text(n, "Phone"@),
        kid_text(n, "URL"@),
        find_kid(n.kids, "StaffLists"@),
    ) {
        (
            Some(school_name),
            Some(principal),
            Some(school_address),
            Some(school_city),
            Some(school_state),
            Some(school_zip),
            Some(phone),
            Some(url),
            Some(sl),
        ) => match staff_in(sl.kids) {
            Ok(staff) => Ok(
                SchoolInfoV {
                    school_name,
                    principal,
                    school_address,
                    school_city,
                    school_state,
                    school_zip,
                    phone,
                    url,
                    staff_list: StaffListV { staff },
                },
            ),
            Err(f) => Err(f),
        },
        (None, _, _, _, _, _, _, _, _) => Err("School"@),
        (Some(_), None, _, _, _, _, _, _, _) => Err("Principal"@),
        (Some(_), Some(_), None, _, _, _, _, _, _) => Err("SchoolAddress"@),
        (Some(_), Some(_), Some(_), None, _, _, _, _, _) => Err("SchoolCity"@),
        (Some(_), Some(_), Some(_), Some(_), None, _, _, _, _) => Err("SchoolState"@),
        (Some(_), Some(_), Some(_), Some(_), Some(_), None, _, _, _) => Err("SchoolZip"@),
        (Some(_), Some(_), Some(_), Some(_), Some(_), Some(_), None, _, _) => Err("Phone"@),
        (Some(_), Some(_), Some(_), Some(_), Some(_), Some(_), Some(_), None, _) => Err("URL"@),
        (Some(_), Some(_), Some(_), Some(_), Some(_), Some(_), Some(_), Some(_), None) => Err(
            "StaffLists"@,
        ),
    }
}

pub open spec fn school_listing_of_node(n: XmlNode) -> Result<
    StudentSchoolInfoListingV,
    Seq<char>,
> {
    match find_kid(n.kids, "StudentSchoolInfoListing"@) {
        Some(s) => match school_info_of_node(s) {
            Ok(si) => Ok(StudentSchoolInfoListingV { school_info: si }),
            Err(f) => Err(f),
        },
        None => Err("StudentSchoolInfoListing"@),
    }
}

/// What decoding a school-information document yields: the model, or the
/// name of what was missing or malformed, which the returned error's
/// message carries.
pub open spec fn spec_decode_school(s: Seq<char>) -> Result<
    StudentSchoolInfoListingV,
    Seq<char>,
> {
    match spec_parse_document(s) {
        Some(root) => school_listing_of_node(root),
        None => Err("malformed XML document"@),
    }
}

/// Decodes one `StaffList` element.
pub fn staff_from_node(n: &Node) -> (r: Result<Staff, VueError>)
    ensures
        match staff_of_node(node_view(*n)) {
            Ok(v) => r matches Ok(s) && s@ == v,
            Err(f) => r matches Err(VueError::Xml(m)) && names_field(m@, f),
        },
{
    let name = match get_text(n, "Name") {
        Ok(v) => v,
        Err(e) => return Err(e),
    };
    let email = match get_text(n, "EMail") {
        Ok(v) => v,
        Err(e) => return Err(e),
    };
    let title = match get_text(n, "Title") {
        Ok(v) => v,
        Err(e) => return Err(e),
    };
    let phone = match get_text(n, "Phone") {
        Ok(v) => v,
        Err(e) => return Err(e),
    };
    Ok(Staff { name, email, title, phone })
}

/// Decodes the `StaffList` children of the staff list, in document order.
fn staff_list_from_node(n: &Node) -> (r: Result<Vec<Staff>, VueError>)
    ensures
        match staff_in(node_view(*n).kids) {
            Ok(v) => r matches Ok(ss) && ss@.map_values(|s: Staff| s@) == v,
            Err(f) => r matches Err(VueError::Xml(m)) && names_field(m@, f),
        },
{
    let mut out: Vec<Staff> = Vec::new();
    let mut i: usize = 0;
    proof {
        assert(n.kids@.skip(0) =~= n.kids@);
        assert(out@.map_values(|s: Staff| s@) =~= Seq::<StaffV>::empty());
    }
    while i < n.kids.len()
        invariant
            0 <= i <= n.kids@.len(),
            staff_in(crate::xml::nodes_view(n.kids@)) == match staff_in(
                crate::xml::nodes_view(n.kids@.skip(i as int)),
            ) {
                Ok(rest) => Ok(out@.map_values(|s: Staff| s@) + rest),
                Err(f) => Err::<Seq<StaffV>, Seq<char>>(f),
            },
        decreases n.kids@.len() - i,
    {
        proof {
            let suf = n.kids@.skip(i as int);
            assert(suf.first() == n.kids@[i as int]);
            assert(suf.drop_first() =~= n.kids@.skip(i as int + 1));
            assert(crate::xml::nodes_view(suf).first() == node_view(n.kids@[i as int]));
            assert(crate::xml::nodes_view(suf).drop_first() =~= crate::xml::nodes_view(
                n.kids@.skip(i as int + 1),
            ));
        }
        if string_eq_str(&n.kids[i].name, "StaffList") {
            match staff_from_node(&n.kids[i]) {
                Ok(s) => {
                    let ghost pre = out@;
                    out.push(s);
                    proof {
                        assert(out@.map_values(|s: Staff| s@) =~= pre.map_values(
                            |s: Staff| s@,
                        ).push(s@));
                        assert forall|rest: Seq<StaffV>|
                            pre.map_values(|s: Staff| s@) + (seq![s@] + rest) =~= out@.map_values(
                                |s: Staff| s@,
                            ) + rest by {}
                    }
                },
                Err(e) => return Err(e),
            }
        }
        i = i + 1;
    }
    proof {
        assert(n.kids@.skip(n.kids@.len() as int) =~= Seq::<Node>::empty());
        assert(crate::xml::nodes_view(Seq::<Node>::empty()) =~= Seq::<XmlNode>::empty());
        assert(staff_in(Seq::<XmlNode>::empty()) == Ok::<Seq<StaffV>, Seq<char>>(
            Seq::<StaffV>::empty(),
        ));
        assert(out@.map_values(|s: Staff| s@) + Seq::<StaffV>::empty() =~= out@.map_values(
            |s: Staff| s@,
        ));
    }
    Ok(out)
}

fn missing_part(name: &str) -> (r: VueError)
    ensures
        r matches VueError::Xml(m) && names_field(m@, name@),
{
    crate::xml::field_error("missing required field: ", name)
}

/// Decodes a whole school-information document, exactly as
/// `spec_decode_school` states; an error's message names what was missing
/// or malformed.
pub fn decode_school(xml: &str) -> (r: Result<StudentSchoolInfoListing, VueError>)
    ensures
        match spec_decode_school(xml@) {
            Ok(v) => r matches Ok(s) && s@ == v,
            Err(f) => r matches Err(VueError::Xml(m)) && names_field(m@, f),
        },
{
    let root = match parse_document(xml) {
        Some(root) => root,
        None => {
            let msg = "malformed XML document".to_owned();
            proof {
                let f = "malformed XML document"@;
                assert(names_field(msg@, f)) by {
                    assert(msg@.subrange(0, 0 + f.len() as int) =~= f);
                }
            }
            return Err(VueError::Xml(msg));
        },
    };
    let info_node = match crate::xml::find_kid_exec(&root, "StudentSchoolInfoListing") {
        Some(s) => s,
        None => {
            return Err(missing_part("StudentSchoolInfoListing"));
        },
    };
    let school_name = match get_text(info_node, "School") {
        Ok(v) => v,
        Err(e) => return Err(e),
    };
    let principal = match get_text(info_node, "Principal") {
        Ok(v) => v,
        Err(e) => return Err(e),
    };
    let school_address = match get_text(info_node, "SchoolAddress") {
        Ok(v) => v,
        Err(e) => return Err(e),
    };
    let school_city = match get_text(info_node, "SchoolCity") {
        Ok(v) => v,
        Err(e) => return Err(e),
    };
    let school_state = match get_text(info_node, "SchoolState") {
        Ok(v) => v,
        Err(e) => return Err(e),
    };
    let school_zip = match get_u32(info_node, "SchoolZip") {
        Ok(v) => v,
        Err(e) => return Err(e),
    };
    let phone = match get_text(info_node, "Phone") {
        Ok(v) => v,
        Err(e) => return Err(e),
    };
    let url = match get_text(info_node, "URL") {
        Ok(v) => v,
        Err(e) => return Err(e),
    };
    let sl_node = match crate::xml::find_kid_exec(info_node, "StaffLists") {
        Some(s) => s,
        None => {
            return Err(missing_part("StaffLists"));
        },
    };
    let staff = match staff_list_from_node(sl_node) {
        Ok(ss) => ss,
        Err(e) => return Err(e),
    };
    Ok(
        StudentSchoolInfoListing {
            school_info: SchoolInfo {
                school_name,
                principal,
                school_address,
                school_city,
                school_state,
                school_zip,
                phone,
                url,
                staff_list: StaffList { staff },
            },
        },
    )
}

/// The canonical element for one staff member.
pub open spec fn node_of_staff(s: StaffV) -> XmlNode {
    XmlNode {
        name: "StaffList"@,
        kids: seq![
            text_node("Name"@, s.name),
            text_node("EMail"@, s.email),
            text_node("Title"@, s.title),
            text_node("Phone"@, s.phone),
        ],
        text: Seq::<char>::empty(),
    }
}

pub open spec fn staff_nodes(ss: Seq<StaffV>) -> Seq<XmlNode>
    decreases ss,
{
    if ss.len() == 0 {
        Seq::<XmlNode>::empty()
    } else {
        seq![node_of_staff(ss.first())] + staff_nodes(ss.drop_first())
    }
}

/// The canonical element for the school data.
pub open spec fn node_of_school_info(si: SchoolInfoV) -> XmlNode {
    XmlNode {
        name: "StudentSchoolInfoListing"@,
        kids: seq![
            text_node("School"@, si.school_name),
            text_node("Principal"@, si.principal),
            text_node("SchoolAddress"@, si.school_address),
            text_node("SchoolCity"@, si.school_city),
            text_node("SchoolState"@, si.school_state),
            text_node("SchoolZip"@, dec_str(si.school_zip as nat)),
            text_node("Phone"@, si.phone),
            text_node("URL"@, si.url),
            XmlNode {
                name: "StaffLists"@,
                kids: staff_nodes(si.staff_list.staff),
                text: Seq::<char>::empty(),
            },
        ],
        text: Seq::<char>::empty(),
    }
}

/// The canonical document for a whole school-information response.
pub open spec fn node_of_school_listing(s: StudentSchoolInfoListingV) -> XmlNode {
    XmlNode {
        name: "StudentSchoolInfoListing"@,
        kids: seq![node_of_school_info(s.school_info)],
        text: Seq::<char>::empty(),
    }
}

pub open spec fn wf_staff(s: StaffV) -> bool {
    wf_text(s.name) && wf_text(s.email) && wf_text(s.title) && wf_text(s.phone)
}

pub open spec fn wf_school_listing(s: StudentSchoolInfoListingV) -> bool {
    wf_text(s.school_info.school_name) && wf_text(s.school_info.principal) && wf_text(
        s.school_info.school_address,
    ) && wf_text(s.school_info.school_city) && wf_text(s.school_info.school_state) && wf_text(
        s.school_info.phone,
    ) && wf_text(s.school_info.url) && forall|i: int|
        0 <= i < s.school_info.staff_list.staff.len() ==> wf_staff(
            #[trigger] s.school_info.staff_list.staff[i],
        )
}

proof fn lemma_staff_nodes_push(ss: Seq<StaffV>, s: StaffV)
    ensures
        staff_nodes(ss.push(s)) == staff_nodes(ss).push(node_of_staff(s)),
    decreases ss.len(),
{
    if ss.len() == 0 {
        assert(ss.push(s).drop_first() =~= Seq::<StaffV>::empty());
        assert(staff_nodes(Seq::<StaffV>::empty()) =~= Seq::<XmlNode>::empty());
        assert(staff_nodes(ss.push(s)) =~= staff_nodes(ss).push(node_of_staff(s)));
    } else {
        assert(ss.push(s).drop_first() =~= ss.drop_first().push(s));
        lemma_staff_nodes_push(ss.drop_first(), s);
        assert(staff_nodes(ss.push(s)) =~= staff_nodes(ss).push(node_of_staff(s)));
    }
}

/// Builds the canonical element for one staff member.
pub fn staff_to_node(s: &Staff) -> (r: Node)
    ensures
        node_view(r) == node_of_staff(s@),
{
    let t1 = text_node_exec("Name", s.name.clone());
    let ghost t1g: Node = t1;
    let t2 = text_node_exec("EMail", s.email.clone());
    let ghost t2g: Node = t2;
    let t3 = text_node_exec("Title", s.title.clone());
    let ghost t3g: Node = t3;
    let t4 = text_node_exec("Phone", s.phone.clone());
    let ghost t4g: Node = t4;
    let mut kids: Vec<Node> = Vec::new();
    kids.push(t1);
    kids.push(t2);
    kids.push(t3);
    kids.push(t4);
    proof {
        assert(kids@ =~= seq![t1g, t2g, t3g, t4g]);
        assert(kids@.first() == t1g);
        assert(kids@.drop_first() =~= seq![t2g, t3g, t4g]);
        assert(seq![t2g, t3g, t4g].drop_first() =~= seq![t3g, t4g]);
        assert(seq![t3g, t4g].drop_first() =~= seq![t4g]);
        assert(seq![t4g].drop_first() =~= Seq::<Node>::empty());
        assert(crate::xml::nodes_view(Seq::<Node>::empty()) =~= Seq::<XmlNode>::empty());
        assert(crate::xml::nodes_view(seq![t4g]) =~= seq![node_view(t4g)]);
        assert(crate::xml::nodes_view(seq![t3g, t4g]) =~= seq![node_view(t3g), node_view(t4g)]);
        assert(crate::xml::nodes_view(seq![t2g, t3g, t4g]) =~= seq![
            node_view(t2g),
            node_view(t3g),
            node_view(t4g),
        ]);
        assert(crate::xml::nodes_view(kids@) =~= node_of_staff(s@).kids);
    }
    Node { name: "StaffList".to_owned(), kids, text: String::new() }
}

/// Builds the canonical document for a whole school-information response.
pub fn school_listing_to_node(s: &StudentSchoolInfoListing) -> (r: Node)
    ensures
        node_view(r) == node_of_school_listing(s@),
{
    let members = &s.school_info.staff_list.staff;
    let mut sl_kids: Vec<Node> = Vec::new();
    proof {
        assert(crate::xml::nodes_view(sl_kids@) =~= Seq::<XmlNode>::empty());
        assert(members@.subrange(0, 0).map_values(|x: Staff| x@) =~= Seq::<StaffV>::empty());
        assert(staff_nodes(Seq::<StaffV>::empty()) =~= Seq::<XmlNode>::empty());
    }
    let mut i: usize = 0;
    while i < members.len()
        invariant
            0 <= i <= members@.len(),
            crate::xml::nodes_view(sl_kids@) == staff_nodes(
                members@.subrange(0, i as int).map_values(|x: Staff| x@),
            ),
        decreases members@.len() - i,
    {
        let child = staff_to_node(&members[i]);
        let ghost childg: Node = child;
        let ghost pre = sl_kids@;
        sl_kids.push(child);
        proof {
            lemma_nodes_view_push(pre, childg);
            let pv = members@.subrange(0, i as int).map_values(|x: Staff| x@);
            lemma_staff_nodes_push(pv, members@[i as int]@);
            assert(members@.subrange(0, i as int + 1).map_values(|x: Staff| x@) =~= pv.push(
                members@[i as int]@,
            ));
        }
        i = i + 1;
    }
    proof {
        assert(members@.subrange(0, members@.len() as int) =~= members@);
        assert(crate::xml::nodes_view(sl_kids@) == staff_nodes(s@.school_info.staff_list.staff));
    }
    let sl_node = Node { name: "StaffLists".to_owned(), kids: sl_kids, text: String::new() };
    let ghost slg: Node = sl_node;
    let t1 = text_node_exec("School", s.school_info.school_name.clone());
    let ghost t1g: Node = t1;
    let t2 = text_node_exec("Principal", s.school_info.principal.clone());
    let ghost t2g: Node = t2;
    let t3 = text_node_exec("SchoolAddress", s.school_info.school_address.clone());
    let ghost t3g: Node = t3;
    let t4 = text_node_exec("SchoolCity", s.school_info.school_city.clone());
    let ghost t4g: Node = t4;
    let t5 = text_node_exec("SchoolState", s.school_info.school_state.clone());
    let ghost t5g: Node = t5;
    let t6 = text_node_exec("SchoolZip", u64_to_string(s.school_info.school_zip as u64));
    let ghost t6g: Node = t6;
    let t7 = text_node_exec("Phone", s.school_info.phone.clone());
    let ghost t7g: Node = t7;
    let t8 = text_node_exec("URL", s.school_info.url.clone());
    let ghost t8g: Node = t8;
    let mut info_kids: Vec<Node> = Vec::new();
    info_kids.push(t1);
    info_kids.push(t2);
    info_kids.push(t3);
    info_kids.push(t4);
    info_kids.push(t5);
    info_kids.push(t6);
    info_kids.push(t7);
    info_kids.push(t8);
    info_kids.push(sl_node);
    proof {
        assert(info_kids@ =~= seq![t1g, t2g, t3g, t4g, t5g, t6g, t7g, t8g, slg]);
        assert(info_kids@.first() == t1g);
        assert(info_kids@.drop_first() =~= seq![t2g, t3g, t4g, t5g, t6g, t7g, t8g, slg]);
        assert(seq![t2g, t3g, t4g, t5g, t6g, t7g, t8g, slg].drop_first() =~= seq![
            t3g, t4g, t5g, t6g, t7g, t8g, slg,
        ]);
        assert(seq![t3g, t4g, t5g, t6g, t7g, t8g, slg].drop_first() =~= seq![
            t4g, t5g, t6g, t7g, t8g, slg,
        ]);
        assert(seq![t4g, t5g, t6g, t7g, t8g, slg].drop_first() =~= seq![t5g, t6g, t7g, t8g, slg]);
        assert(seq![t5g, t6g, t7g, t8g, slg].drop_first() =~= seq![t6g, t7g, t8g, slg]);
        assert(seq![t6g, t7g, t8g, slg].drop_first() =~= seq![t7g, t8g, slg]);
        assert(seq![t7g, t8g, slg].drop_first() =~= seq![t8g, slg]);
        assert(seq![t8g, slg].drop_first() =~= seq![slg]);
        assert(seq![slg].drop_first() =~= Seq::<Node>::empty());
        assert(crate::xml::nodes_view(Seq::<Node>::empty()) =~= Seq::<XmlNode>::empty());
        assert(crate::xml::nodes_view(seq![slg]) =~= seq![node_view(slg)]);
        assert(crate::xml::nodes_view(seq![t8g, slg]) =~= seq![node_view(t8g), node_view(slg)]);
        assert(crate::xml::nodes_view(seq![t7g, t8g, slg]) =~= seq![
            node_view(t7g),
            node_view(t8g),
            node_view(slg),
        ]);
        assert(crate::xml::nodes_view(seq![t6g, t7g, t8g, slg]) =~= seq![
            node_view(t6g),
            node_view(t7g),
            node_view(t8g),
            node_view(slg),
        ]);
        assert(crate::xml::nodes_view(seq![t5g, t6g, t7g, t8g, slg]) =~= seq![
            node_view(t5g),
            node_view(t6g),
            node_view(t7g),
            node_view(t8g),
            node_view(slg),
        ]);
        assert(crate::xml::nodes_view(seq![t4g, t5g, t6g, t7g, t8g, slg]) =~= seq![
            node_view(t4g),
            node_view(t5g),
            node_view(t6g),
            node_view(t7g),
            node_view(t8g),
            node_view(slg),
        ]);
        assert(crate::xml::nodes_view(seq![t3g, t4g, t5g, t6g, t7g, t8g, slg]) =~= seq![
            node_view(t3g),
            node_view(t4g),
            node_view(t5g),
            node_view(t6g),
            node_view(t7g),
            node_view(t8g),
            node_view(slg),
        ]);
        assert(crate::xml::nodes_view(seq![t2g, t3g, t4g, t5g, t6g, t7g, t8g, slg]) =~= seq![
            node_view(t2g),
            node_view(t3g),
            node_view(t4g),
            node_view(t5g),
            node_view(t6g),
            node_view(t7g),
            node_view(t8g),
            node_view(slg),
        ]);
        assert(crate::xml::nodes_view(info_kids@) =~= node_of_school_info(s@.school_info).kids);
    }
    let info_node = Node {
        name: "StudentSchoolInfoListing".to_owned(),
        kids: info_kids,
        text: String::new(),
    };
    let ghost infog: Node = info_node;
    proof {
        assert(node_view(infog) == node_of_school_info(s@.school_info));
    }
    let mut root_kids: Vec<Node> = Vec::new();
    root_kids.push(info_node);
    proof {
        assert(root_kids@ =~= seq![infog]);
        assert(seq![infog].drop_first() =~= Seq::<Node>::empty());
        assert(crate::xml::nodes_view(Seq::<Node>::empty()) =~= Seq::<XmlNode>::empty());
        assert(crate::xml::nodes_view(root_kids@) =~= seq![node_of_school_info(s@.school_info)]);
    }
    Node { name: "StudentSchoolInfoListing".to_owned(), kids: root_kids, text: String::new() }
}

/// The reference serializer for school-information documents.
pub fn encode_school(s: &StudentSchoolInfoListing) -> (r: String)
    ensures
        r@ == ser_node(node_of_school_listing(s@)),
{
    let n = school_listing_to_node(s);
    node_to_string(&n)
}

pub proof fn lemma_staff_inv(s: StaffV)
    requires
        wf_staff(s),
    ensures
        wf_node(node_of_staff(s)),
        staff_of_node(node_of_staff(s)) == Ok::<StaffV, Seq<char>>(s),
{
    reveal_strlit("StaffList");
    reveal_strlit("Name");
    reveal_strlit("EMail");
    reveal_strlit("Title");
    reveal_strlit("Phone");
    let n = node_of_staff(s);
    let t1 = text_node("Name"@, s.name);
    let t2 = text_node("EMail"@, s.email);
    let t3 = text_node("Title"@, s.title);
    let t4 = text_node("Phone"@, s.phone);
    let k0 = n.kids;
    let k1 = k0.drop_first();
    let k2 = k1.drop_first();
    let k3 = k2.drop_first();
    assert(k0.first() == t1);
    assert(k1 =~= seq![t2, t3, t4]);
    assert(k1.first() == t2);
    assert(k2 =~= seq![t3, t4]);
    assert(k2.first() == t3);
    assert(k3 =~= seq![t4]);
    assert(k3.first() == t4);
    assert(k3.drop_first() =~= Seq::<XmlNode>::empty());
    assert(wf_name("StaffList"@));
    assert(wf_name("Name"@));
    assert(wf_name("EMail"@));
    assert(wf_name("Title"@));
    assert(wf_name("Phone"@));
    crate::xml::lemma_text_node_wf("Name"@, s.name);
    crate::xml::lemma_text_node_wf("EMail"@, s.email);
    crate::xml::lemma_text_node_wf("Title"@, s.title);
    crate::xml::lemma_text_node_wf("Phone"@, s.phone);
    assert(crate::xml::wf_kids(Seq::<XmlNode>::empty()));
    assert(crate::xml::wf_kids(k3));
    assert(crate::xml::wf_kids(k2));
    assert(crate::xml::wf_kids(k1));
    assert(crate::xml::wf_kids(k0));
    assert(wf_node(n));
    assert("EMail"@ != "Title"@) by {
        assert("EMail"@[0] == 'E');
        assert("Title"@[0] == 'T');
    }
    assert("EMail"@ != "Phone"@) by {
        assert("EMail"@[0] == 'E');
        assert("Phone"@[0] == 'P');
    }
    assert("Title"@ != "Phone"@) by {
        assert("Title"@[0] == 'T');
        assert("Phone"@[0] == 'P');
    }
    assert(find_kid(k0, "Name"@) == Some(t1));
    assert(kid_text(n, "Name"@) == Some(s.name));
    assert(find_kid(k0, "EMail"@) == find_kid(k1, "EMail"@));
    assert(find_kid(k1, "EMail"@) == Some(t2));
    assert(kid_text(n, "EMail"@) == Some(s.email));
    assert(find_kid(k0, "Title"@) == find_kid(k1, "Title"@));
    assert(find_kid(k1, "Title"@) == find_kid(k2, "Title"@));
    assert(find_kid(k2, "Title"@) == Some(t3));
    assert(kid_text(n, "Title"@) == Some(s.title));
    assert(find_kid(k0, "Phone"@) == find_kid(k1, "Phone"@));
    assert(find_kid(k1, "Phone"@) == find_kid(k2, "Phone"@));
    assert(find_kid(k2, "Phone"@) == find_kid(k3, "Phone"@));
    assert(find_kid(k3, "Phone"@) == Some(t4));
    assert(kid_text(n, "Phone"@) == Some(s.phone));
    assert(staff_of_node(n) == Ok::<StaffV, Seq<char>>(
        StaffV { name: s.name, email: s.email, title: s.title, phone: s.phone },
    ));
}

proof fn lemma_staff_nodes_inv(ss: Seq<StaffV>)
    requires
        forall|i: int| 0 <= i < ss.len() ==> wf_staff(#[trigger] ss[i]),
    ensures
        crate::xml::wf_kids(staff_nodes(ss)),
        staff_in(staff_nodes(ss)) == Ok::<Seq<StaffV>, Seq<char>>(ss),
    decreases ss,
{
    reveal_strlit("StaffList");
    if ss.len() == 0 {
        assert(staff_nodes(ss) =~= Seq::<XmlNode>::empty());
        assert(staff_in(Seq::<XmlNode>::empty()) == Ok::<Seq<StaffV>, Seq<char>>(
            Seq::<StaffV>::empty(),
        ));
        assert(Seq::<StaffV>::empty() =~= ss);
    } else {
        lemma_staff_inv(ss.first());
        assert(forall|i: int| 0 <= i < ss.drop_first().len() ==> wf_staff(
            #[trigger] ss.drop_first()[i],
        )) by {
            assert(forall|i: int| 0 <= i < ss.drop_first().len() ==> ss.drop_first()[i] == ss[i
                + 1]);
        }
        lemma_staff_nodes_inv(ss.drop_first());
        let ks = staff_nodes(ss);
        assert(ks.first() == node_of_staff(ss.first()));
        assert(ks.drop_first() =~= staff_nodes(ss.drop_first()));
        assert(ks.first().name == "StaffList"@);
        assert(staff_in(ks) == Ok::<Seq<StaffV>, Seq<char>>(seq![ss.first()] + ss.drop_first()));
        assert(seq![ss.first()] + ss.drop_first() =~= ss);
    }
}

pub proof fn lemma_school_listing_inv(s: StudentSchoolInfoListingV)
    requires
        wf_school_listing(s),
    ensures
        wf_node(node_of_school_listing(s)),
        school_listing_of_node(node_of_school_listing(s)) == Ok::<
            StudentSchoolInfoListingV,
            Seq<char>,
        >(s),
{
    reveal_strlit("StudentSchoolInfoListing");
    reveal_strlit("School");
    reveal_strlit("Principal");
    reveal_strlit("SchoolAddress");
    reveal_strlit("SchoolCity");
    reveal_strlit("SchoolState");
    reveal_strlit("SchoolZip");
    reveal_strlit("Phone");
    reveal_strlit("URL");
    reveal_strlit("StaffLists");
    let si = s.school_info;
    lemma_staff_nodes_inv(si.staff_list.staff);
    let n = node_of_school_listing(s);
    let inode = node_of_school_info(si);
    let t1 = text_node("School"@, si.school_name);
    let t2 = text_node("Principal"@, si.principal);
    let t3 = text_node("SchoolAddress"@, si.school_address);
    let t4 = text_node("SchoolCity"@, si.school_city);
    let t5 = text_node("SchoolState"@, si.school_state);
    let t6 = text_node("SchoolZip"@, dec_str(si.school_zip as nat));
    let t7 = text_node("Phone"@, si.phone);
    let t8 = text_node("URL"@, si.url);
    let sl = XmlNode {
        name: "StaffLists"@,
        kids: staff_nodes(si.staff_list.staff),
        text: Seq::<char>::empty(),
    };
    let k0 = inode.kids;
    let k1 = k0.drop_first();
    let k2 = k1.drop_first();
    let k3 = k2.drop_first();
    let k4 = k3.drop_first();
    let k5 = k4.drop_first();
    let k6 = k5.drop_first();
    let k7 = k6.drop_first();
    let k8 = k7.drop_first();
    assert(k0.first() == t1);
    assert(k1 =~= seq![t2, t3, t4, t5, t6, t7, t8, sl]);
    assert(k1.first() == t2);
    assert(k2 =~= seq![t3, t4, t5, t6, t7, t8, sl]);
    assert(k2.first() == t3);
    assert(k3 =~= seq![t4, t5, t6, t7, t8, sl]);
    assert(k3.first() == t4);
    assert(k4 =~= seq![t5, t6, t7, t8, sl]);
    assert(k4.first() == t5);
    assert(k5 =~= seq![t6, t7, t8, sl]);
    assert(k5.first() == t6);
    assert(k6 =~= seq![t7, t8, sl]);
    assert(k6.first() == t7);
    assert(k7 =~= seq![t8, sl]);
    assert(k7.first() == t8);
    assert(k8 =~= seq![sl]);
    assert(k8.first() == sl);
    assert(k8.drop_first() =~= Seq::<XmlNode>::empty());
    lemma_dec_str_val(si.school_zip as nat);
    crate::xml::lemma_digits_text(dec_str(si.school_zip as nat));
    assert(wf_name("StudentSchoolInfoListing"@));
    assert(wf_name("School"@));
    assert(wf_name("Principal"@));
    assert(wf_name("SchoolAddress"@));
    assert(wf_name("SchoolCity"@));
    assert(wf_name("SchoolState"@));
    assert(wf_name("SchoolZip"@));
    assert(wf_name("Phone"@));
    assert(wf_name("URL"@));
    assert(wf_name("StaffLists"@));
    crate::xml::lemma_text_node_wf("School"@, si.school_name);
    crate::xml::lemma_text_node_wf("Principal"@, si.principal);
    crate::xml::lemma_text_node_wf("SchoolAddress"@, si.school_address);
    crate::xml::lemma_text_node_wf("SchoolCity"@, si.school_city);
    crate::xml::lemma_text_node_wf("SchoolState"@, si.school_state);
    crate::xml::lemma_text_node_wf("SchoolZip"@, dec_str(si.school_zip as nat));
    crate::xml::lemma_text_node_wf("Phone"@, si.phone);
    crate::xml::lemma_text_node_wf("URL"@, si.url);
    assert(wf_node(sl));
    assert(crate::xml::wf_kids(Seq::<XmlNode>::empty()));
    assert(crate::xml::wf_kids(k8));
    assert(crate::xml::wf_kids(k7));
    assert(crate::xml::wf_kids(k6));
    assert(crate::xml::wf_kids(k5));
    assert(crate::xml::wf_kids(k4));
    assert(crate::xml::wf_kids(k3));
    assert(crate::xml::wf_kids(k2));
    assert(crate::xml::wf_kids(k1));
    assert(crate::xml::wf_kids(k0));
    assert(wf_node(inode));
    assert(n.kids.first() == inode);
    assert(n.kids.drop_first() =~= Seq::<XmlNode>::empty());
    assert(crate::xml::wf_kids(n.kids));
    assert(wf_node(n));
    // same-length names need a differing position
    assert("Principal"@ != "SchoolZip"@) by {
        assert("Principal"@[0] == 'P');
        assert("SchoolZip"@[0] == 'S');
    }
    assert("SchoolCity"@ != "StaffLists"@) by {
        assert("SchoolCity"@[1] == 'c');
        assert("StaffLists"@[1] == 't');
    }
    assert(find_kid(k0, "School"@) == Some(t1));
    assert(kid_text(inode, "School"@) == Some(si.school_name));
    assert(find_kid(k0, "Principal"@) == find_kid(k1, "Principal"@));
    assert(find_kid(k1, "Principal"@) == Some(t2));
    assert(kid_text(inode, "Principal"@) == Some(si.principal));
    assert(find_kid(k0, "SchoolAddress"@) == find_kid(k1, "SchoolAddress"@));
    assert(find_kid(k1, "SchoolAddress"@) == find_kid(k2, "SchoolAddress"@));
    assert(find_kid(k2, "SchoolAddress"@) == Some(t3));
    assert(kid_text(inode, "SchoolAddress"@) == Some(si.school_address));
    assert(find_kid(k0, "SchoolCity"@) == find_kid(k1, "SchoolCity"@));
    assert(find_kid(k1, "SchoolCity"@) == find_kid(k2, "SchoolCity"@));
    assert(find_kid(k2, "SchoolCity"@) == find_kid(k3, "SchoolCity"@));
    assert(find_kid(k3, "SchoolCity"@) == Some(t4));
    assert(kid_text(inode, "SchoolCity"@) == Some(si.school_city));
    assert(find_kid(k0, "SchoolState"@) == find_kid(k1, "SchoolState"@));
    assert(find_kid(k1, "SchoolState"@) == find_kid(k2, "SchoolState"@));
    assert(find_kid(k2, "SchoolState"@) == find_kid(k3, "SchoolState"@));
    assert(find_kid(k3, "SchoolState"@) == find_kid(k4, "SchoolState"@));
    assert(find_kid(k4, "SchoolState"@) == Some(t5));
    assert(kid_text(inode, "SchoolState"@) == Some(si.school_state));
    assert(find_kid(k0, "SchoolZip"@) == find_kid(k1, "SchoolZip"@));
    assert(find_kid(k1, "SchoolZip"@) == find_kid(k2, "SchoolZip"@));
    assert(find_kid(k2, "SchoolZip"@) == find_kid(k3, "SchoolZip"@));
    assert(find_kid(k3, "SchoolZip"@) == find_kid(k4, "SchoolZip"@));
    assert(find_kid(k4, "SchoolZip"@) == find_kid(k5, "SchoolZip"@));
    assert(find_kid(k5, "SchoolZip"@) == Some(t6));
    assert(kid_u32(inode, "SchoolZip"@) == Some(si.school_zip)) by {
        assert(parse_u64_spec(dec_str(si.school_zip as nat)) == Some(si.school_zip as u64));
    }
    assert(find_kid(k0, "Phone"@) == find_kid(k1, "Phone"@));
    assert(find_kid(k1, "Phone"@) == find_kid(k2, "Phone"@));
    assert(find_kid(k2, "Phone"@) == find_kid(k3, "Phone"@));
    assert(find_kid(k3, "Phone"@) == find_kid(k4, "Phone"@));
    assert(find_kid(k4, "Phone"@) == find_kid(k5, "Phone"@));
    assert(find_kid(k5, "Phone"@) == find_kid(k6, "Phone"@));
    assert(find_kid(k6, "Phone"@) == Some(t7));
    assert(kid_text(inode, "Phone"@) == Some(si.phone));
    assert(find_kid(k0, "URL"@) == find_kid(k1, "URL"@));
    assert(find_kid(k1, "URL"@) == find_kid(k2, "URL"@));
    assert(find_kid(k2, "URL"@) == find_kid(k3, "URL"@));
    assert(find_kid(k3, "URL"@) == find_kid(k4, "URL"@));
    assert(find_kid(k4, "URL"@) == find_kid(k5, "URL"@));
    assert(find_kid(k5, "URL"@) == find_kid(k6, "URL"@));
    assert(find_kid(k6, "URL"@) == find_kid(k7, "URL"@));
    assert(find_kid(k7, "URL"@) == Some(t8));
    assert(kid_text(inode, "URL"@) == Some(si.url));
    assert(find_kid(k0, "StaffLists"@) == find_kid(k1, "StaffLists"@));
    assert(find_kid(k1, "StaffLists"@) == find_kid(k2, "StaffLists"@));
    assert(find_kid(k2, "StaffLists"@) == find_kid(k3, "StaffLists"@));
    assert(find_kid(k3, "StaffLists"@) == find_kid(k4, "StaffLists"@));
    assert(find_kid(k4, "StaffLists"@) == find_kid(k5, "StaffLists"@));
    assert(find_kid(k5, "StaffLists"@) == find_kid(k6, "StaffLists"@));
    assert(find_kid(k6, "StaffLists"@) == find_kid(k7, "StaffLists"@));
    assert(find_kid(k7, "StaffLists"@) == find_kid(k8, "StaffLists"@));
    assert(find_kid(k8, "StaffLists"@) == Some(sl));
    assert(staff_in(sl.kids) == Ok::<Seq<StaffV>, Seq<char>>(si.staff_list.staff));
    assert(StaffListV { staff: si.staff_list.staff } == si.staff_list);
    assert(school_info_of_node(inode) == Ok::<SchoolInfoV, Seq<char>>(
        SchoolInfoV {
            school_name: si.school_name,
            principal: si.principal,
            school_address: si.school_address,
            school_city: si.school_city,
            school_state: si.school_state,
            school_zip: si.school_zip,
            phone: si.phone,
            url: si.url,
            staff_list: si.staff_list,
        },
    ));
    assert(SchoolInfoV {
        school_name: si.school_name,
        principal: si.principal,
        school_address: si.school_address,
        school_city: si.school_city,
        school_state: si.school_state,
        school_zip: si.school_zip,
        phone: si.phone,
        url: si.url,
        staff_list: si.staff_list,
    } == si);
    assert(find_kid(n.kids, "StudentSchoolInfoListing"@) == Some(inode));
    assert(school_listing_of_node(n) == Ok::<StudentSchoolInfoListingV, Seq<char>>(
        StudentSchoolInfoListingV { school_info: si },
    ));
    assert(StudentSchoolInfoListingV { school_info: si } == s);
}

/// Decoding is idempotent on re-parse for the school-information shape.
pub proof fn lemma_school_roundtrip(s: StudentSchoolInfoListingV)
    requires
        wf_school_listing(s),
    ensures
        spec_decode_school(ser_node(node_of_school_listing(s))) == Ok::<
            StudentSchoolInfoListingV,
            Seq<char>,
        >(s),
{
    lemma_school_listing_inv(s);
    let n = node_of_school_listing(s);
    let w = ser_node(n);
    assert(w.subrange(0, w.len() as int) =~= w);
    crate::xml::lemma_parse_ser_node(n, w, 0);
    assert(crate::xml::spec_parse_node(w, 0) == Some((n, w.len() as int)));
    assert(spec_parse_document(w) == Some(n));
}

} // verus!
