//! The class-schedule response: the term index and the class list.
//!
//! The document nests `StudentClassSchedule` → `TermIndex` + `ClassLists` →
//! `ClassListing`*, each class carrying its period, title, room and teacher.

use vstd::prelude::*;
use crate::error::VueError;
use crate::numeric::{dec_str, u64_to_string, lemma_dec_str_val, parse_u64_spec};
use crate::xml::{
    XmlNode, Node, node_view, kid_text, kid_u8, find_kid, spec_parse_document, parse_document,
    get_text, get_u8, string_eq_str, text_node, text_node_exec, wf_node, wf_text, wf_name,
    node_to_string, ser_node, lemma_nodes_view_push, names_field,
};

verus! {

/// One scheduled class.
#[derive(Debug, PartialEq)]
pub struct Class {
    pub period: u8,
    pub course_title: String,
    pub room_name: String,
    pub teacher: String,
    pub teacher_email: String,
}

pub struct ClassV {
    pub period: u8,
    pub course_title: Seq<char>,
    pub room_name: Seq<char>,
    pub teacher: Seq<char>,
    pub teacher_email: Seq<char>,
}

impl View for Class {
    type V = ClassV;

    open spec fn view(&self) -> ClassV {
        ClassV {
            period: self.period,
            course_title: self.course_title@,
            room_name: self.room_name@,
            teacher: self.teacher@,
            teacher_email: self.teacher_email@,
        }
    }
}

/// The class list of a schedule.
#[derive(Debug, PartialEq)]
pub struct ClassList {
    pub class: Vec<Class>,
}

pub struct ClassListV {
    pub class: Seq<ClassV>,
}

impl View for ClassList {
    type V = ClassListV;

    open spec fn view(&self) -> ClassListV {
        ClassListV { class: self.class@.map_values(|c: Class| c@) }
    }
}

/// The schedule itself: the term index and the classes.
#[derive(Debug, PartialEq)]
pub struct Schedule {
    pub term: u8,
    pub class_list: ClassList,
}

pub struct ScheduleV {
    pub term: u8,
    pub class_list: ClassListV,
}

impl View for Schedule {
    type V = ScheduleV;

    open spec fn view(&self) -> ScheduleV {
        ScheduleV { term: self.term, class_list: self.class_list@ }
    }
}

/// The whole class-schedule response document.
#[derive(Debug, PartialEq)]
pub struct StudentClassSchedule {
    pub schedule: Schedule,
}

pub struct StudentClassScheduleV {
    pub schedule: ScheduleV,
}

impl View for StudentClassSchedule {
    type V = StudentClassScheduleV;

    open spec fn view(&self) -> StudentClassScheduleV {
        StudentClassScheduleV { schedule: self.schedule@ }
    }
}

/// What a `ClassListing` element decodes to, or the name of the first
/// field that is missing or malformed.
pub open spec fn class_of_node(n: XmlNode) -> Result<ClassV, Seq<char>> {
    match (
        kid_u8(n, "Period"@),
        kid_text(n, "CourseTitle"@),
        kid_text(n, "RoomName"@),
        kid_text(n, "Teacher"@),
        kid_text(n, "TeacherEmail"@),
    ) {
        (Some(period), Some(course_title), Some(room_name), Some(teacher), Some(teacher_email)) => Ok(
            ClassV { period, course_title, room_name, teacher, teacher_email },
        ),
        (None, _, _, _, _) => Err("Period"@),
        (Some(_), None, _, _, _) => Err("CourseTitle"@),
        (Some(_), Some(_), None, _, _) => Err("RoomName"@),
        (Some(_), Some(_), Some(_), None, _) => Err("Teacher"@),
        (Some(_), Some(_), Some(_), Some(_), None) => Err("TeacherEmail"@),
    }
}

/// The decoded `ClassListing` children among `ks`, in document order.
pub open spec fn classes_in(ks: Seq<XmlNode>) -> Result<Seq<ClassV>, Seq<char>>
    decreases ks,
{
    if ks.len() == 0 {
        Ok(Seq::<ClassV>::empty())
    } else if ks.first().name == "ClassListing"@ {
        match (class_of_node(ks.first()), classes_in(ks.drop_first())) {
            (Ok(c), Ok(rest)) => Ok(seq![c] + rest),
            (Err(f), _) => Err(f),
            (Ok(_), Err(f)) => Err(f),
        }
    } else {
        classes_in(ks.drop_first())
    }
}

pub open spec fn schedule_of_node(n: XmlNode) -> Result<ScheduleV, Seq<char>> {
    match (kid_u8(n, "TermIndex"@), find_kid(n.kids, "ClassLists"@)) {
        (Some(term), Some(cl)) => match classes_in(cl.kids) {
            Ok(cs) => Ok(ScheduleV { term, class_list: ClassListV { class: cs } }),
            Err(f) => Err(f),
        },
        (None, _) => Err("TermIndex"@),
        (Some(_), None) => Err("ClassLists"@),
    }
}

pub open spec fn class_schedule_of_node(n: XmlNode) -> Result<
    StudentClassScheduleV,
    Seq<char>,
> {
    match find_kid(n.kids, "StudentClassSchedule"@) {
        Some(s) => match schedule_of_node(s) {
            Ok(sc) => Ok(StudentClassScheduleV { schedule: sc }),
            Err(f) => Err(f),
        },
        None => Err("StudentClassSchedule"@),
    }
}

/// What decoding a class-schedule document yields: the model, or the name
/// of what was missing or malformed, which the returned error's message
/// carries.
pub open spec fn spec_decode_schedule(s: Seq<char>) -> Result<StudentClassScheduleV, Seq<char>> {
    match spec_parse_document(s) {
        Some(root) => class_schedule_of_node(root),
        None => Err("malformed XML document"@),
    }
}

/// Decodes one `ClassListing` element.
pub fn class_from_node(n: &Node) -> (r: Result<Class, VueError>)
    ensures
        match class_of_node(node_view(*n)) {
            Ok(v) => r matches Ok(c) && c@ == v,
            Err(f) => r matches Err(VueError::Xml(m)) && names_field(m@, f),
        },
{
    let period = match get_u8(n, "Period") {
        Ok(v) => v,
        Err(e) => return Err(e),
    };
    let course_title = match get_text(n, "CourseTitle") {
        Ok(v) => v,
        Err(e) => return Err(e),
    };
    let room_name = match get_text(n, "RoomName") {
        Ok(v) => v,
        Err(e) => return Err(e),
    };
    let teacher = match get_text(n, "Teacher") {
        Ok(v) => v,
        Err(e) => return Err(e),
    };
    let teacher_email = match get_text(n, "TeacherEmail") {
        Ok(v) => v,
        Err(e) => return Err(e),
    };
    Ok(Class { period, course_title, room_name, teacher, teacher_email })
}

/// Decodes the `ClassListing` children of a class list, in document order.
fn classes_list_from_node(n: &Node) -> (r: Result<Vec<Class>, VueError>)
    ensures
        match classes_in(node_view(*n).kids) {
            Ok(v) => r matches Ok(cs) && cs@.map_values(|c: Class| c@) == v,
            Err(f) => r matches Err(VueError::Xml(m)) && names_field(m@, f),
        },
{
    let mut out: Vec<Class> = Vec::new();
    let mut i: usize = 0;
    proof {
        assert(n.kids@.skip(0) =~= n.kids@);
        assert(out@.map_values(|c: Class| c@) =~= Seq::<ClassV>::empty());
    }
    while i < n.kids.len()
        invariant
            0 <= i <= n.kids@.len(),
            classes_in(crate::xml::nodes_view(n.kids@)) == match classes_in(
                crate::xml::nodes_view(n.kids@.skip(i as int)),
            ) {
                Ok(rest) => Ok(out@.map_values(|c: Class| c@) + rest),
                Err(f) => Err::<Seq<ClassV>, Seq<char>>(f),
            },
        decreases n.kids@.len() - i,
    {
        proof {
            let suf = n.kids@.skip(i as int);
            assert(suf.first() == n.kids@[i as int]);
            assert(suf.drop_first() =~= n.kids@.skip(i as int + 1));
            assert(crate::xml::nodes_view(suf).first() == node_view(n.kids@[i as int]));
            assert(crate::xml::nodes_view(suf).drop_first() =~= crate::xml::nodes_view(
                n.kids@.skip(i as int + 1),
            ));
        }
        if string_eq_str(&n.kids[i].name, "ClassListing") {
            match class_from_node(&n.kids[i]) {
                Ok(c) => {
                    let ghost pre = out@;
                    out.push(c);
                    proof {
                        assert(out@.map_values(|c: Class| c@) =~= pre.map_values(
                            |c: Class| c@,
                        ).push(c@));
                        assert forall|rest: Seq<ClassV>|
                            pre.map_values(|c: Class| c@) + (seq![c@] + rest) =~= out@.map_values(
                                |c: Class| c@,
                            ) + rest by {}
                    }
                },
                Err(e) => return Err(e),
            }
        }
        i = i + 1;
    }
    proof {
        assert(n.kids@.skip(n.kids@.len() as int) =~= Seq::<Node>::empty());
        assert(crate::xml::nodes_view(Seq::<Node>::empty()) =~= Seq::<XmlNode>::empty());
        assert(classes_in(Seq::<XmlNode>::empty()) == Ok::<Seq<ClassV>, Seq<char>>(
            Seq::<ClassV>::empty(),
        ));
        assert(out@.map_values(|c: Class| c@) + Seq::<ClassV>::empty() =~= out@.map_values(
            |c: Class| c@,
        ));
    }
    Ok(out)
}

fn missing_part(name: &str) -> (r: VueError)
    ensures
        r matches VueError::Xml(m) && names_field(m@, name@),
{
    crate::xml::field_error("missing required field: ", name)
}

/// Decodes a whole class-schedule document, exactly as
/// `spec_decode_schedule` states; an error's message names what was missing
/// or malformed.
pub fn decode_schedule(xml: &str) -> (r: Result<StudentClassSchedule, VueError>)
    ensures
        match spec_decode_schedule(xml@) {
            Ok(v) => r matches Ok(s) && s@ == v,
            Err(f) => r matches Err(VueError::Xml(m)) && names_field(m@, f),
        },
{
    let root = match parse_document(xml) {
        Some(root) => root,
        None => {
            let msg = "malformed XML document".to_owned();
            proof {
                let f = "malformed XML document"@;
                assert(names_field(msg@, f)) by {
                    assert(msg@.subrange(0, 0 + f.len() as int) =~= f);
                }
            }
            return Err(VueError::Xml(msg));
        },
    };
    let sched_node = match crate::xml::find_kid_exec(&root, "StudentClassSchedule") {
        Some(s) => s,
        None => {
            return Err(missing_part("StudentClassSchedule"));
        },
    };
    let term = match get_u8(sched_node, "TermIndex") {
        Ok(v) => v,
        Err(e) => {
            return Err(e);
        },
    };
    let cl_node = match crate::xml::find_kid_exec(sched_node, "ClassLists") {
        Some(c) => c,
        None => {
            return Err(missing_part("ClassLists"));
        },
    };
    let class = match classes_list_from_node(cl_node) {
        Ok(cs) => cs,
        Err(e) => {
            return Err(e);
        },
    };
    Ok(StudentClassSchedule { schedule: Schedule { term, class_list: ClassList { class } } })
}

/// The canonical element for one class.
pub open spec fn node_of_class(c: ClassV) -> XmlNode {
    XmlNode {
        name: "ClassListing"@,
        kids: seq![
            text_node("Period"@, dec_str(c.period as nat)),
            text_node("CourseTitle"@, c.course_title),
            text_node("RoomName"@, c.room_name),
            text_node("Teacher"@, c.teacher),
            text_node("TeacherEmail"@, c.teacher_email),
        ],
        text: Seq::<char>::empty(),
    }
}

pub open spec fn class_nodes(cs: Seq<ClassV>) -> Seq<XmlNode>
    decreases cs,
{
    if cs.len() == 0 {
        Seq::<XmlNode>::empty()
    } else {
        seq![node_of_class(cs.first())] + class_nodes(cs.drop_first())
    }
}

pub open spec fn node_of_class_list(cl: ClassListV) -> XmlNode {
    XmlNode { name: "ClassLists"@, kids: class_nodes(cl.class), text: Seq::<char>::empty() }
}

pub open spec fn node_of_schedule(s: ScheduleV) -> XmlNode {
    XmlNode {
        name: "StudentClassSchedule"@,
        kids: seq![
            text_node("TermIndex"@, dec_str(s.term as nat)),
            node_of_class_list(s.class_list),
        ],
        text: Seq::<char>::empty(),
    }
}

/// The canonical document for a whole class schedule.
pub open spec fn node_of_class_schedule(s: StudentClassScheduleV) -> XmlNode {
    XmlNode {
        name: "StudentClassSchedule"@,
        kids: seq![node_of_schedule(s.schedule)],
        text: Seq::<char>::empty(),
    }
}

pub open spec fn wf_class(c: ClassV) -> bool {
    wf_text(c.course_title) && wf_text(c.room_name) && wf_text(c.teacher) && wf_text(
        c.teacher_email,
    )
}

pub open spec fn wf_class_schedule(s: StudentClassScheduleV) -> bool {
    forall|i: int|
        0 <= i < s.schedule.class_list.class.len() ==> wf_class(
            #[trigger] s.schedule.class_list.class[i],
        )
}

proof fn lemma_class_nodes_push(cs: Seq<ClassV>, c: ClassV)
    ensures
        class_nodes(cs.push(c)) == class_nodes(cs).push(node_of_class(c)),
    decreases cs.len(),
{
    if cs.len() == 0 {
        assert(cs.push(c).drop_first() =~= Seq::<ClassV>::empty());
        assert(class_nodes(Seq::<ClassV>::empty()) =~= Seq::<XmlNode>::empty());
        assert(class_nodes(cs.push(c)) =~= class_nodes(cs).push(node_of_class(c)));
    } else {
        assert(cs.push(c).drop_first() =~= cs.drop_first().push(c));
        lemma_class_nodes_push(cs.drop_first(), c);
        assert(class_nodes(cs.push(c)) =~= class_nodes(cs).push(node_of_class(c)));
    }
}

/// Builds the canonical element for one class.
pub fn class_to_node(c: &Class) -> (r: Node)
    ensures
        node_view(r) == node_of_class(c@),
{
    let t1 = text_node_exec("Period", u64_to_string(c.period as u64));
    let ghost t1g: Node = t1;
    let t2 = text_node_exec("CourseTitle", c.course_title.clone());
    let ghost t2g: Node = t2;
    let t3 = text_node_exec("RoomName", c.room_name.clone());
    let ghost t3g: Node = t3;
    let t4 = text_node_exec("Teacher", c.teacher.clone());
    let ghost t4g: Node = t4;
    let t5 = text_node_exec("TeacherEmail", c.teacher_email.clone());
    let ghost t5g: Node = t5;
    let mut kids: Vec<Node> = Vec::new();
    kids.push(t1);
    kids.push(t2);
    kids.push(t3);
    kids.push(t4);
    kids.push(t5);
    proof {
        assert(kids@ =~= seq![t1g, t2g, t3g, t4g, t5g]);
        assert(kids@.first() == t1g);
        assert(kids@.drop_first() =~= seq![t2g, t3g, t4g, t5g]);
        assert(seq![t2g, t3g, t4g, t5g].drop_first() =~= seq![t3g, t4g, t5g]);
        assert(seq![t3g, t4g, t5g].drop_first() =~= seq![t4g, t5g]);
        assert(seq![t4g, t5g].drop_first() =~= seq![t5g]);
        assert(seq![t5g].drop_first() =~= Seq::<Node>::empty());
        assert(crate::xml::nodes_view(Seq::<Node>::empty()) =~= Seq::<XmlNode>::empty());
        assert(crate::xml::nodes_view(seq![t5g]) =~= seq![node_view(t5g)]);
        assert(crate::xml::nodes_view(seq![t4g, t5g]) =~= seq![node_view(t4g), node_view(t5g)]);
        assert(crate::xml::nodes_view(seq![t3g, t4g, t5g]) =~= seq![
            node_view(t3g),
            node_view(t4g),
            node_view(t5g),
        ]);
        assert(crate::xml::nodes_view(seq![t2g, t3g, t4g, t5g]) =~= seq![
            node_view(t2g),
            node_view(t3g),
            node_view(t4g),
            node_view(t5g),
        ]);
        assert(crate::xml::nodes_view(kids@) =~= node_of_class(c@).kids);
    }
    Node { name: "ClassListing".to_owned(), kids, text: String::new() }
}

/// Builds the canonical document for a whole class schedule.
pub fn class_schedule_to_node(s: &StudentClassSchedule) -> (r: Node)
    ensures
        node_view(r) == node_of_class_schedule(s@),
{
    let classes = &s.schedule.class_list.class;
    let mut cl_kids: Vec<Node> = Vec::new();
    proof {
        assert(crate::xml::nodes_view(cl_kids@) =~= Seq::<XmlNode>::empty());
        assert(classes@.subrange(0, 0).map_values(|x: Class| x@) =~= Seq::<ClassV>::empty());
        assert(class_nodes(Seq::<ClassV>::empty()) =~= Seq::<XmlNode>::empty());
    }
    let mut i: usize = 0;
    while i < classes.len()
        invariant
            0 <= i <= classes@.len(),
            crate::xml::nodes_view(cl_kids@) == class_nodes(
                classes@.subrange(0, i as int).map_values(|x: Class| x@),
            ),
        decreases classes@.len() - i,
    {
        let child = class_to_node(&classes[i]);
        let ghost childg: Node = child;
        let ghost pre = cl_kids@;
        cl_kids.push(child);
        proof {
            lemma_nodes_view_push(pre, childg);
            let pv = classes@.subrange(0, i as int).map_values(|x: Class| x@);
            lemma_class_nodes_push(pv, classes@[i as int]@);
            assert(classes@.subrange(0, i as int + 1).map_values(|x: Class| x@) =~= pv.push(
                classes@[i as int]@,
            ));
        }
        i = i + 1;
    }
    proof {
        assert(classes@.subrange(0, classes@.len() as int) =~= classes@);
        assert(crate::xml::nodes_view(cl_kids@) == class_nodes(s@.schedule.class_list.class));
    }
    let cl_node = Node { name: "ClassLists".to_owned(), kids: cl_kids, text: String::new() };
    let ghost clg: Node = cl_node;
    proof {
        assert(node_view(clg) == node_of_class_list(s@.schedule.class_list));
    }
    let term_node = text_node_exec("TermIndex", u64_to_string(s.schedule.term as u64));
    let ghost termg: Node = term_node;
    let mut sched_kids: Vec<Node> = Vec::new();
    sched_kids.push(term_node);
    sched_kids.push(cl_node);
    proof {
        assert(sched_kids@ =~= seq![termg, clg]);
        assert(sched_kids@.first() == termg);
        assert(sched_kids@.drop_first() =~= seq![clg]);
        assert(seq![clg].drop_first() =~= Seq::<Node>::empty());
        assert(crate::xml::nodes_view(Seq::<Node>::empty()) =~= Seq::<XmlNode>::empty());
        assert(crate::xml::nodes_view(seq![clg]) =~= seq![node_view(clg)]);
        assert(crate::xml::nodes_view(sched_kids@) =~= node_of_schedule(s@.schedule).kids);
    }
    let sched_node = Node {
        name: "StudentClassSchedule".to_owned(),
        kids: sched_kids,
        text: String::new(),
    };
    let ghost schedg: Node = sched_node;
    proof {
        assert(node_view(schedg) == node_of_schedule(s@.schedule));
    }
    let mut root_kids: Vec<Node> = Vec::new();
    root_kids.push(sched_node);
    proof {
        assert(root_kids@ =~= seq![schedg]);
        assert(seq![schedg].drop_first() =~= Seq::<Node>::empty());
        assert(crate::xml::nodes_view(Seq::<Node>::empty()) =~= Seq::<XmlNode>::empty());
        assert(crate::xml::nodes_view(root_kids@) =~= seq![node_of_schedule(s@.schedule)]);
    }
    Node { name: "StudentClassSchedule".to_owned(), kids: root_kids, text: String::new() }
}

/// The reference serializer for class-schedule documents.
pub fn encode_schedule(s: &StudentClassSchedule) -> (r: String)
    ensures
        r@ == ser_node(node_of_class_schedule(s@)),
{
    let n = class_schedule_to_node(s);
    node_to_string(&n)
}

pub proof fn lemma_class_inv(c: ClassV)
    requires
        wf_class(c),
    ensures
        wf_node(node_of_class(c)),
        class_of_node(node_of_class(c)) == Ok::<ClassV, Seq<char>>(c),
{
    reveal_strlit("ClassListing");
    reveal_strlit("Period");
    reveal_strlit("CourseTitle");
    reveal_strlit("RoomName");
    reveal_strlit("Teacher");
    reveal_strlit("TeacherEmail");
    let n = node_of_class(c);
    let t1 = text_node("Period"@, dec_str(c.period as nat));
    let t2 = text_node("CourseTitle"@, c.course_title);
    let t3 = text_node("RoomName"@, c.room_name);
    let t4 = text_node("Teacher"@, c.teacher);
    let t5 = text_node("TeacherEmail"@, c.teacher_email);
    let k0 = n.kids;
    let k1 = k0.drop_first();
    let k2 = k1.drop_first();
    let k3 = k2.drop_first();
    let k4 = k3.drop_first();
    assert(k0.first() == t1);
    assert(k1 =~= seq![t2, t3, t4, t5]);
    assert(k1.first() == t2);
    assert(k2 =~= seq![t3, t4, t5]);
    assert(k2.first() == t3);
    assert(k3 =~= seq![t4, t5]);
    assert(k3.first() == t4);
    assert(k4 =~= seq![t5]);
    assert(k4.first() == t5);
    assert(k4.drop_first() =~= Seq::<XmlNode>::empty());
    lemma_dec_str_val(c.period as nat);
    crate::xml::lemma_digits_text(dec_str(c.period as nat));
    assert(wf_name("ClassListing"@));
    assert(wf_name("Period"@));
    assert(wf_name("CourseTitle"@));
    assert(wf_name("RoomName"@));
    assert(wf_name("Teacher"@));
    assert(wf_name("TeacherEmail"@));
    crate::xml::lemma_text_node_wf("Period"@, dec_str(c.period as nat));
    crate::xml::lemma_text_node_wf("CourseTitle"@, c.course_title);
    crate::xml::lemma_text_node_wf("RoomName"@, c.room_name);
    crate::xml::lemma_text_node_wf("Teacher"@, c.teacher);
    crate::xml::lemma_text_node_wf("TeacherEmail"@, c.teacher_email);
    assert(crate::xml::wf_kids(Seq::<XmlNode>::empty()));
    assert(crate::xml::wf_kids(k4));
    assert(crate::xml::wf_kids(k3));
    assert(crate::xml::wf_kids(k2));
    assert(crate::xml::wf_kids(k1));
    assert(crate::xml::wf_kids(k0));
    assert(wf_node(n));
    assert(find_kid(k0, "Period"@) == Some(t1));
    assert(kid_u8(n, "Period"@) == Some(c.period)) by {
        assert(parse_u64_spec(dec_str(c.period as nat)) == Some(c.period as u64));
    }
    assert(find_kid(k0, "CourseTitle"@) == find_kid(k1, "CourseTitle"@));
    assert(find_kid(k1, "CourseTitle"@) == Some(t2));
    assert(kid_text(n, "CourseTitle"@) == Some(c.course_title));
    assert(find_kid(k0, "RoomName"@) == find_kid(k1, "RoomName"@));
    assert(find_kid(k1, "RoomName"@) == find_kid(k2, "RoomName"@));
    assert(find_kid(k2, "RoomName"@) == Some(t3));
    assert(kid_text(n, "RoomName"@) == Some(c.room_name));
    assert(find_kid(k0, "Teacher"@) == find_kid(k1, "Teacher"@));
    assert(find_kid(k1, "Teacher"@) == find_kid(k2, "Teacher"@));
    assert(find_kid(k2, "Teacher"@) == find_kid(k3, "Teacher"@));
    assert(find_kid(k3, "Teacher"@) == Some(t4));
    assert(kid_text(n, "Teacher"@) == Some(c.teacher));
    assert(find_kid(k0, "TeacherEmail"@) == find_kid(k1, "TeacherEmail"@));
    assert(find_kid(k1, "TeacherEmail"@) == find_kid(k2, "TeacherEmail"@));
    assert(find_kid(k2, "TeacherEmail"@) == find_kid(k3, "TeacherEmail"@));
    assert(find_kid(k3, "TeacherEmail"@) == find_kid(k4, "TeacherEmail"@));
    assert(find_kid(k4, "TeacherEmail"@) == Some(t5));
    assert(kid_text(n, "TeacherEmail"@) == Some(c.teacher_email));
    assert(class_of_node(n) == Ok::<ClassV, Seq<char>>(
        ClassV {
            period: c.period,
            course_title: c.course_title,
            room_name: c.room_name,
            teacher: c.teacher,
            teacher_email: c.teacher_email,
        },
    ));
}

proof fn lemma_class_nodes_inv(cs: Seq<ClassV>)
    requires
        forall|i: int| 0 <= i < cs.len() ==> wf_class(#[trigger] cs[i]),
    ensures
        crate::xml::wf_kids(class_nodes(cs)),
        classes_in(class_nodes(cs)) == Ok::<Seq<ClassV>, Seq<char>>(cs),
    decreases cs,
{
    reveal_strlit("ClassListing");
    if cs.len() == 0 {
        assert(class_nodes(cs) =~= Seq::<XmlNode>::empty());
        assert(classes_in(Seq::<XmlNode>::empty()) == Ok::<Seq<ClassV>, Seq<char>>(
            Seq::<ClassV>::empty(),
        ));
        assert(Seq::<ClassV>::empty() =~= cs);
    } else {
        lemma_class_inv(cs.first());
        assert(forall|i: int| 0 <= i < cs.drop_first().len() ==> wf_class(
            #[trigger] cs.drop_first()[i],
        )) by {
            assert(forall|i: int| 0 <= i < cs.drop_first().len() ==> cs.drop_first()[i] == cs[i
                + 1]);
        }
        lemma_class_nodes_inv(cs.drop_first());
        let ks = class_nodes(cs);
        assert(ks.first() == node_of_class(cs.first()));
        assert(ks.drop_first() =~= class_nodes(cs.drop_first()));
        assert(ks.first().name == "ClassListing"@);
        assert(classes_in(ks) == Ok::<Seq<ClassV>, Seq<char>>(seq![cs.first()] + cs.drop_first()));
        assert(seq![cs.first()] + cs.drop_first() =~= cs);
    }
}

pub proof fn lemma_class_schedule_inv(s: StudentClassScheduleV)
    requires
        wf_class_schedule(s),
    ensures
        wf_node(node_of_class_schedule(s)),
        class_schedule_of_node(node_of_class_schedule(s)) == Ok::<StudentClassScheduleV, Seq<char>>(
            s,
        ),
{
    reveal_strlit("StudentClassSchedule");
    reveal_strlit("TermIndex");
    reveal_strlit("ClassLists");
    lemma_class_nodes_inv(s.schedule.class_list.class);
    let tn = text_node("TermIndex"@, dec_str(s.schedule.term as nat));
    let cln = node_of_class_list(s.schedule.class_list);
    let sn = node_of_schedule(s.schedule);
    let n = node_of_class_schedule(s);
    lemma_dec_str_val(s.schedule.term as nat);
    crate::xml::lemma_digits_text(dec_str(s.schedule.term as nat));
    assert(wf_name("StudentClassSchedule"@));
    assert(wf_name("TermIndex"@));
    assert(wf_name("ClassLists"@));
    crate::xml::lemma_text_node_wf("TermIndex"@, dec_str(s.schedule.term as nat));
    assert(wf_node(cln));
    assert(sn.kids.first() == tn);
    assert(sn.kids.drop_first() =~= seq![cln]);
    assert(seq![cln].drop_first() =~= Seq::<XmlNode>::empty());
    assert(crate::xml::wf_kids(Seq::<XmlNode>::empty()));
    assert(crate::xml::wf_kids(seq![cln]));
    assert(crate::xml::wf_kids(sn.kids));
    assert(wf_node(sn));
    assert(n.kids.first() == sn);
    assert(n.kids.drop_first() =~= Seq::<XmlNode>::empty());
    assert(crate::xml::wf_kids(n.kids));
    assert(wf_node(n));
    assert(find_kid(n.kids, "StudentClassSchedule"@) == Some(sn));
    assert(find_kid(sn.kids, "TermIndex"@) == Some(tn));
    assert(kid_u8(sn, "TermIndex"@) == Some(s.schedule.term)) by {
        assert(parse_u64_spec(dec_str(s.schedule.term as nat)) == Some(s.schedule.term as u64));
    }
    assert(find_kid(sn.kids, "ClassLists"@) == find_kid(seq![cln], "ClassLists"@));
    assert(find_kid(seq![cln], "ClassLists"@) == Some(cln));
    assert(classes_in(cln.kids) == Ok::<Seq<ClassV>, Seq<char>>(s.schedule.class_list.class));
    assert(ClassListV { class: s.schedule.class_list.class } == s.schedule.class_list);
    assert(schedule_of_node(sn) == Ok::<ScheduleV, Seq<char>>(
        ScheduleV { term: s.schedule.term, class_list: s.schedule.class_list },
    ));
    assert(ScheduleV { term: s.schedule.term, class_list: s.schedule.class_list } == s.schedule);
    assert(class_schedule_of_node(n) == Ok::<StudentClassScheduleV, Seq<char>>(
        StudentClassScheduleV { schedule: s.schedule },
    ));
    assert(StudentClassScheduleV { schedule: s.schedule } == s);
}

/// Decoding is idempotent on re-parse for the class-schedule shape.
pub proof fn lemma_schedule_roundtrip(s: StudentClassScheduleV)
    requires
        wf_class_schedule(s),
    ensures
        spec_decode_schedule(ser_node(node_of_class_schedule(s))) == Ok::<
            StudentClassScheduleV,
            Seq<char>,
        >(s),
{
    lemma_class_schedule_inv(s);
    let n = node_of_class_schedule(s);
    let w = ser_node(n);
    assert(w.subrange(0, w.len() as int) =~= w);
    crate::xml::lemma_parse_ser_node(n, w, 0);
    assert(crate::xml::spec_parse_node(w, 0) == Some((n, w.len() as int)));
    assert(spec_parse_document(w) == Some(n));
}

} // verus!
