//! The grade-book response: courses, each with grading-period marks.
//!
//! The document nests `Gradebook` → `Courses` → `Course`* → `Marks`* →
//! `Mark`*.  Field names carry the external schema's exact casing
//! (`StaffEMail`, `CalculatedScoreString`); a score is a single character
//! and a percentage an exact decimal.

use vstd::prelude::*;
use crate::error::VueError;
use crate::numeric::{
    Decimal, DecimalV, wf_decimal, ser_decimal, lemma_decimal_roundtrip, dec_str, u64_to_string,
    decimal_to_string, lemma_dec_str_val,
};
use crate::xml::{
    XmlNode, Node, node_view, nodes_view, kid_text, kid_u8, kid_u32, kid_char, kid_decimal,
    find_kid, spec_parse_document, parse_document, get_text, get_u8, get_u32, get_char_field,
    get_decimal, string_eq_str, text_node, text_node_exec, wf_node, wf_text, wf_name,
    is_text_char, push_char, node_to_string, ser_node, lemma_nodes_view_push,
};
use crate::numeric::parse_u64_spec;
use crate::xml::names_field;

verus! {

/// One grading-period mark: the letter score and the exact percentage.
#[derive(Debug, PartialEq)]
pub struct Mark {
    pub grade: char,
    pub percent: Decimal,
}

pub struct MarkV {
    pub grade: char,
    pub percent: DecimalV,
}

impl View for Mark {
    type V = MarkV;

    open spec fn view(&self) -> MarkV {
        MarkV { grade: self.grade, percent: self.percent@ }
    }
}

/// One grading-period block of marks.
#[derive(Debug, PartialEq)]
pub struct Marks {
    pub mark: Vec<Mark>,
}

pub struct MarksV {
    pub mark: Seq<MarkV>,
}

impl View for Marks {
    type V = MarksV;

    open spec fn view(&self) -> MarksV {
        MarksV { mark: self.mark@.map_values(|m: Mark| m@) }
    }
}

/// One course: period, title, room, staff, and its grading periods.
#[derive(Debug, PartialEq)]
pub struct Course {
    pub period: u8,
    pub class_name: String,
    pub room: u32,
    pub staff: String,
    pub staff_email: String,
    pub marks: Vec<Marks>,
}

pub struct CourseV {
    pub period: u8,
    pub class_name: Seq<char>,
    pub room: u32,
    pub staff: Seq<char>,
    pub staff_email: Seq<char>,
    pub marks: Seq<MarksV>,
}

impl View for Course {
    type V = CourseV;

    open spec fn view(&self) -> CourseV {
        CourseV {
            period: self.period,
            class_name: self.class_name@,
            room: self.room,
            staff: self.staff@,
            staff_email: self.staff_email@,
            marks: self.marks@.map_values(|m: Marks| m@),
        }
    }
}

/// The course list of a grade book.
#[derive(Debug, PartialEq)]
pub struct Courses {
    pub course: Vec<Course>,
}

pub struct CoursesV {
    pub course: Seq<CourseV>,
}

impl View for Courses {
    type V = CoursesV;

    open spec fn view(&self) -> CoursesV {
        CoursesV { course: self.course@.map_values(|c: Course| c@) }
    }
}

/// The grade book itself.
#[derive(Debug, PartialEq)]
pub struct Gradebook {
    pub courses: Courses,
}

pub struct GradebookV {
    pub courses: CoursesV,
}

impl View for Gradebook {
    type V = GradebookV;

    open spec fn view(&self) -> GradebookV {
        GradebookV { courses: self.courses@ }
    }
}

/// The whole grade-book response document.
#[derive(Debug, PartialEq)]
pub struct GbData {
    pub gradebook: Gradebook,
}

pub struct GbDataV {
    pub gradebook: GradebookV,
}

impl View for GbData {
    type V = GbDataV;

    open spec fn view(&self) -> GbDataV {
        GbDataV { gradebook: self.gradebook@ }
    }
}

/// What a `Mark` element decodes to: its one-character score and exact
/// percentage, or the name of the first field that is missing or malformed.
pub open spec fn mark_of_node(n: XmlNode) -> Result<MarkV, Seq<char>> {
    match (kid_char(n, "CalculatedScoreString"@), kid_decimal(n, "CalculatedScoreRaw"@)) {
        (Some(g), Some(p)) => Ok(MarkV { grade: g, percent: p }),
        (None, _) => Err("CalculatedScoreString"@),
        (Some(_), None) => Err("CalculatedScoreRaw"@),
    }
}

/// The decoded `Mark` children among `ks`, in document order; other
/// children are ignored, and a malformed `Mark` fails the whole list with
/// its first offending field's name.
pub open spec fn marks_in(ks: Seq<XmlNode>) -> Result<Seq<MarkV>, Seq<char>>
    decreases ks,
{
    if ks.len() == 0 {
        Ok(Seq::<MarkV>::empty())
    } else if ks.first().name == "Mark"@ {
        match (mark_of_node(ks.first()), marks_in(ks.drop_first())) {
            (Ok(m), Ok(rest)) => Ok(seq![m] + rest),
            (Err(f), _) => Err(f),
            (Ok(_), Err(f)) => Err(f),
        }
    } else {
        marks_in(ks.drop_first())
    }
}

pub open spec fn marks_of_node(n: XmlNode) -> Result<MarksV, Seq<char>> {
    match marks_in(n.kids) {
        Ok(ms) => Ok(MarksV { mark: ms }),
        Err(f) => Err(f),
    }
}

/// The decoded `Marks` children among `ks`, in document order.
pub open spec fn marks_list_in(ks: Seq<XmlNode>) -> Result<Seq<MarksV>, Seq<char>>
    decreases ks,
{
    if ks.len() == 0 {
        Ok(Seq::<MarksV>::empty())
    } else if ks.first().name == "Marks"@ {
        match (marks_of_node(ks.first()), marks_list_in(ks.drop_first())) {
            (Ok(m), Ok(rest)) => Ok(seq![m] + rest),
            (Err(f), _) => Err(f),
            (Ok(_), Err(f)) => Err(f),
        }
    } else {
        marks_list_in(ks.drop_first())
    }
}

/// What a `Course` element decodes to, or the name of the first field that
/// is missing or malformed, in the order the fields are read.
pub open spec fn course_of_node(n: XmlNode) -> Result<CourseV, Seq<char>> {
    match (
        kid_u8(n, "Period"@),
        kid_text(n, "Title"@),
        kid_u32(n, "Room"@),
        kid_text(n, "Staff"@),
        kid_text(n, "StaffEMail"@),
    ) {
        (Some(period), Some(class_name), Some(room), Some(staff), Some(staff_email)) => match marks_list_in(
            n.kids,
        ) {
            Ok(marks) => Ok(CourseV { period, class_name, room, staff, staff_email, marks }),
            Err(f) => Err(f),
        },
        (None, _, _, _, _) => Err("Period"@),
        (Some(_), None, _, _, _) => Err("Title"@),
        (Some(_), Some(_), None, _, _) => Err("Room"@),
        (Some(_), Some(_), Some(_), None, _) => Err("Staff"@),
        (Some(_), Some(_), Some(_), Some(_), None) => Err("StaffEMail"@),
    }
}

/// The decoded `Course` children among `ks`, in document order; zero
/// repetitions decode to the empty sequence, not an error.
pub open spec fn courses_in(ks: Seq<XmlNode>) -> Result<Seq<CourseV>, Seq<char>>
    decreases ks,
{
    if ks.len() == 0 {
        Ok(Seq::<CourseV>::empty())
    } else if ks.first().name == "Course"@ {
        match (course_of_node(ks.first()), courses_in(ks.drop_first())) {
            (Ok(c), Ok(rest)) => Ok(seq![c] + rest),
            (Err(f), _) => Err(f),
            (Ok(_), Err(f)) => Err(f),
        }
    } else {
        courses_in(ks.drop_first())
    }
}

pub open spec fn courses_of_node(n: XmlNode) -> Result<CoursesV, Seq<char>> {
    match courses_in(n.kids) {
        Ok(cs) => Ok(CoursesV { course: cs }),
        Err(f) => Err(f),
    }
}

pub open spec fn gradebook_of_node(n: XmlNode) -> Result<GradebookV, Seq<char>> {
    match find_kid(n.kids, "Courses"@) {
        Some(c) => match courses_of_node(c) {
            Ok(cs) => Ok(GradebookV { courses: cs }),
            Err(f) => Err(f),
        },
        None => Err("Courses"@),
    }
}

pub open spec fn gbdata_of_node(n: XmlNode) -> Result<GbDataV, Seq<char>> {
    match find_kid(n.kids, "Gradebook"@) {
        Some(g) => match gradebook_of_node(g) {
            Ok(gb) => Ok(GbDataV { gradebook: gb }),
            Err(f) => Err(f),
        },
        None => Err("Gradebook"@),
    }
}

/// What decoding a grade-book document yields: the parsed root mapped onto
/// the model, or — where the text is not such a document — the name of what
/// was missing or malformed, which the returned error's message carries.
pub open spec fn spec_decode_gradebook(s: Seq<char>) -> Result<GbDataV, Seq<char>> {
    match spec_parse_document(s) {
        Some(root) => gbdata_of_node(root),
        None => Err("malformed XML document"@),
    }
}

/// Decodes one `Mark` element.
pub fn mark_from_node(n: &Node) -> (r: Result<Mark, VueError>)
    ensures
        match mark_of_node(node_view(*n)) {
            Ok(v) => r matches Ok(m) && m@ == v,
            Err(f) => r matches Err(VueError::Xml(m)) && names_field(m@, f),
        },
{
    let grade = match get_char_field(n, "CalculatedScoreString") {
        Ok(v) => v,
        Err(e) => return Err(e),
    };
    let percent = match get_decimal(n, "CalculatedScoreRaw") {
        Ok(v) => v,
        Err(e) => return Err(e),
    };
    Ok(Mark { grade, percent })
}

/// Decodes one `Marks` element: every `Mark` child, in document order.
pub fn marks_from_node(n: &Node) -> (r: Result<Marks, VueError>)
    ensures
        match marks_of_node(node_view(*n)) {
            Ok(v) => r matches Ok(m) && m@ == v,
            Err(f) => r matches Err(VueError::Xml(m)) && names_field(m@, f),
        },
{
    let mut out: Vec<Mark> = Vec::new();
    let mut i: usize = 0;
    proof {
        assert(n.kids@.skip(0) =~= n.kids@);
        assert(out@.map_values(|m: Mark| m@) =~= Seq::<MarkV>::empty());
    }
    while i < n.kids.len()
        invariant
            0 <= i <= n.kids@.len(),
            marks_in(nodes_view(n.kids@)) == match marks_in(
                nodes_view(n.kids@.skip(i as int)),
            ) {
                Ok(rest) => Ok(out@.map_values(|m: Mark| m@) + rest),
                Err(f) => Err::<Seq<MarkV>, Seq<char>>(f),
            },
        decreases n.kids@.len() - i,
    {
        proof {
            let suf = n.kids@.skip(i as int);
            assert(suf.first() == n.kids@[i as int]);
            assert(suf.drop_first() =~= n.kids@.skip(i as int + 1));
            assert(nodes_view(suf).first() == node_view(n.kids@[i as int]));
            assert(nodes_view(suf).drop_first() =~= nodes_view(n.kids@.skip(i as int + 1)));
        }
        if string_eq_str(&n.kids[i].name, "Mark") {
            match mark_from_node(&n.kids[i]) {
                Ok(m) => {
                    let ghost pre = out@;
                    out.push(m);
                    proof {
                        assert(out@.map_values(|m: Mark| m@) =~= pre.map_values(
                            |m: Mark| m@,
                        ).push(m@));
                        assert forall|rest: Seq<MarkV>|
                            pre.map_values(|m: Mark| m@) + (seq![m@] + rest) =~= out@.map_values(
                                |m: Mark| m@,
                            ) + rest by {}
                    }
                },
                Err(e) => return Err(e),
            }
        }
        i = i + 1;
    }
    proof {
        assert(n.kids@.skip(n.kids@.len() as int) =~= Seq::<Node>::empty());
        assert(marks_in(nodes_view(Seq::<Node>::empty())) == Ok::<Seq<MarkV>, Seq<char>>(
            Seq::<MarkV>::empty(),
        ));
        assert(out@.map_values(|m: Mark| m@) + Seq::<MarkV>::empty() =~= out@.map_values(
            |m: Mark| m@,
        ));
    }
    Ok(Marks { mark: out })
}

/// Decodes the `Marks` children of a course, in document order.
fn marks_list_from_node(n: &Node) -> (r: Result<Vec<Marks>, VueError>)
    ensures
        match marks_list_in(node_view(*n).kids) {
            Ok(v) => r matches Ok(ms) && ms@.map_values(|m: Marks| m@) == v,
            Err(f) => r matches Err(VueError::Xml(m)) && names_field(m@, f),
        },
{
    let mut out: Vec<Marks> = Vec::new();
    let mut i: usize = 0;
    proof {
        assert(n.kids@.skip(0) =~= n.kids@);
        assert(out@.map_values(|m: Marks| m@) =~= Seq::<MarksV>::empty());
    }
    while i < n.kids.len()
        invariant
            0 <= i <= n.kids@.len(),
            marks_list_in(nodes_view(n.kids@)) == match marks_list_in(
                nodes_view(n.kids@.skip(i as int)),
            ) {
                Ok(rest) => Ok(out@.map_values(|m: Marks| m@) + rest),
                Err(f) => Err::<Seq<MarksV>, Seq<char>>(f),
            },
        decreases n.kids@.len() - i,
    {
        proof {
            let suf = n.kids@.skip(i as int);
            assert(suf.first() == n.kids@[i as int]);
            assert(suf.drop_first() =~= n.kids@.skip(i as int + 1));
            assert(nodes_view(suf).first() == node_view(n.kids@[i as int]));
            assert(nodes_view(suf).drop_first() =~= nodes_view(n.kids@.skip(i as int + 1)));
        }
        if string_eq_str(&n.kids[i].name, "Marks") {
            match marks_from_node(&n.kids[i]) {
                Ok(m) => {
                    let ghost pre = out@;
                    out.push(m);
                    proof {
                        assert(out@.map_values(|m: Marks| m@) =~= pre.map_values(
                            |m: Marks| m@,
                        ).push(m@));
                        assert forall|rest: Seq<MarksV>|
                            pre.map_values(|m: Marks| m@) + (seq![m@] + rest) =~= out@.map_values(
                                |m: Marks| m@,
                            ) + rest by {}
                    }
                },
                Err(e) => return Err(e),
            }
        }
        i = i + 1;
    }
    proof {
        assert(n.kids@.skip(n.kids@.len() as int) =~= Seq::<Node>::empty());
        assert(marks_list_in(nodes_view(Seq::<Node>::empty())) == Ok::<Seq<MarksV>, Seq<char>>(
            Seq::<MarksV>::empty(),
        ));
        assert(out@.map_values(|m: Marks| m@) + Seq::<MarksV>::empty() =~= out@.map_values(
            |m: Marks| m@,
        ));
    }
    Ok(out)
}

/// Decodes one `Course` element.
pub fn course_from_node(n: &Node) -> (r: Result<Course, VueError>)
    ensures
        match course_of_node(node_view(*n)) {
            Ok(v) => r matches Ok(c) && c@ == v,
            Err(f) => r matches Err(VueError::Xml(m)) && names_field(m@, f),
        },
{
    let period = match get_u8(n, "Period") {
        Ok(v) => v,
        Err(e) => return Err(e),
    };
    let class_name = match get_text(n, "Title") {
        Ok(v) => v,
        Err(e) => return Err(e),
    };
    let room = match get_u32(n, "Room") {
        Ok(v) => v,
        Err(e) => return Err(e),
    };
    let staff = match get_text(n, "Staff") {
        Ok(v) => v,
        Err(e) => return Err(e),
    };
    let staff_email = match get_text(n, "StaffEMail") {
        Ok(v) => v,
        Err(e) => return Err(e),
    };
    let marks = match marks_list_from_node(n) {
        Ok(v) => v,
        Err(e) => return Err(e),
    };
    Ok(Course { period, class_name, room, staff, staff_email, marks })
}

/// Decodes the `Course` children of a course list, in document order.
fn courses_list_from_node(n: &Node) -> (r: Result<Vec<Course>, VueError>)
    ensures
        match courses_in(node_view(*n).kids) {
            Ok(v) => r matches Ok(cs) && cs@.map_values(|c: Course| c@) == v,
            Err(f) => r matches Err(VueError::Xml(m)) && names_field(m@, f),
        },
{
    let mut out: Vec<Course> = Vec::new();
    let mut i: usize = 0;
    proof {
        assert(n.kids@.skip(0) =~= n.kids@);
        assert(out@.map_values(|c: Course| c@) =~= Seq::<CourseV>::empty());
    }
    while i < n.kids.len()
        invariant
            0 <= i <= n.kids@.len(),
            courses_in(nodes_view(n.kids@)) == match courses_in(
                nodes_view(n.kids@.skip(i as int)),
            ) {
                Ok(rest) => Ok(out@.map_values(|c: Course| c@) + rest),
                Err(f) => Err::<Seq<CourseV>, Seq<char>>(f),
            },
        decreases n.kids@.len() - i,
    {
        proof {
            let suf = n.kids@.skip(i as int);
            assert(suf.first() == n.kids@[i as int]);
            assert(suf.drop_first() =~= n.kids@.skip(i as int + 1));
            assert(nodes_view(suf).first() == node_view(n.kids@[i as int]));
            assert(nodes_view(suf).drop_first() =~= nodes_view(n.kids@.skip(i as int + 1)));
        }
        if string_eq_str(&n.kids[i].name, "Course") {
            match course_from_node(&n.kids[i]) {
                Ok(c) => {
                    let ghost pre = out@;
                    out.push(c);
                    proof {
                        assert(out@.map_values(|c: Course| c@) =~= pre.map_values(
                            |c: Course| c@,
                        ).push(c@));
                        assert forall|rest: Seq<CourseV>|
                            pre.map_values(|c: Course| c@) + (seq![c@] + rest) =~= out@.map_values(
                                |c: Course| c@,
                            ) + rest by {}
                    }
                },
                Err(e) => return Err(e),
            }
        }
        i = i + 1;
    }
    proof {
        assert(n.kids@.skip(n.kids@.len() as int) =~= Seq::<Node>::empty());
        assert(courses_in(nodes_view(Seq::<Node>::empty())) == Ok::<Seq<CourseV>, Seq<char>>(
            Seq::<CourseV>::empty(),
        ));
        assert(out@.map_values(|c: Course| c@) + Seq::<CourseV>::empty() =~= out@.map_values(
            |c: Course| c@,
        ));
    }
    Ok(out)
}

fn missing_part(name: &str) -> (r: VueError)
    ensures
        r matches VueError::Xml(m) && names_field(m@, name@),
{
    crate::xml::field_error("missing required field: ", name)
}

/// Decodes a whole grade-book document, exactly as `spec_decode_gradebook`
/// states: the result is the mapped document, and an error — always a
/// decoding error whose message names what was missing or malformed — comes
/// exactly when the text is not a grade-book document.
pub fn decode_gradebook(xml: &str) -> (r: Result<GbData, VueError>)
    ensures
        match spec_decode_gradebook(xml@) {
            Ok(v) => r matches Ok(g) && g@ == v,
            Err(f) => r matches Err(VueError::Xml(m)) && names_field(m@, f),
        },
{
    let root = match parse_document(xml) {
        Some(root) => root,
        None => {
            let msg = "malformed XML document".to_owned();
            proof {
                let f = "malformed XML document"@;
                assert(names_field(msg@, f)) by {
                    assert(msg@.subrange(0, 0 + f.len() as int) =~= f);
                }
            }
            return Err(VueError::Xml(msg));
        },
    };
    let gb_node = match crate::xml::find_kid_exec(&root, "Gradebook") {
        Some(g) => g,
        None => {
            return Err(missing_part("Gradebook"));
        },
    };
    let courses_node = match crate::xml::find_kid_exec(gb_node, "Courses") {
        Some(c) => c,
        None => {
            return Err(missing_part("Courses"));
        },
    };
    let course = match courses_list_from_node(courses_node) {
        Ok(cs) => cs,
        Err(e) => {
            return Err(e);
        },
    };
    Ok(GbData { gradebook: Gradebook { courses: Courses { course } } })
}

/// The canonical element for one mark: the reference serializer's shape.
pub open spec fn node_of_mark(m: MarkV) -> XmlNode {
    XmlNode {
        name: "Mark"@,
        kids: seq![
            text_node("CalculatedScoreString"@, seq![m.grade]),
            text_node("CalculatedScoreRaw"@, ser_decimal(m.percent)),
        ],
        text: Seq::<char>::empty(),
    }
}

pub open spec fn mark_nodes(ms: Seq<MarkV>) -> Seq<XmlNode>
    decreases ms,
{
    if ms.len() == 0 {
        Seq::<XmlNode>::empty()
    } else {
        seq![node_of_mark(ms.first())] + mark_nodes(ms.drop_first())
    }
}

pub open spec fn node_of_marks(ms: MarksV) -> XmlNode {
    XmlNode { name: "Marks"@, kids: mark_nodes(ms.mark), text: Seq::<char>::empty() }
}

pub open spec fn marks_nodes(ms: Seq<MarksV>) -> Seq<XmlNode>
    decreases ms,
{
    if ms.len() == 0 {
        Seq::<XmlNode>::empty()
    } else {
        seq![node_of_marks(ms.first())] + marks_nodes(ms.drop_first())
    }
}

/// The canonical element for one course.
pub open spec fn node_of_course(c: CourseV) -> XmlNode {
    XmlNode {
        name: "Course"@,
        kids: seq![
            text_node("Period"@, dec_str(c.period as nat)),
            text_node("Title"@, c.class_name),
            text_node("Room"@, dec_str(c.room as nat)),
            text_node("Staff"@, c.staff),
            text_node("StaffEMail"@, c.staff_email),
        ] + marks_nodes(c.marks),
        text: Seq::<char>::empty(),
    }
}

pub open spec fn course_nodes(cs: Seq<CourseV>) -> Seq<XmlNode>
    decreases cs,
{
    if cs.len() == 0 {
        Seq::<XmlNode>::empty()
    } else {
        seq![node_of_course(cs.first())] + course_nodes(cs.drop_first())
    }
}

pub open spec fn node_of_courses(cs: CoursesV) -> XmlNode {
    XmlNode { name: "Courses"@, kids: course_nodes(cs.course), text: Seq::<char>::empty() }
}

pub open spec fn node_of_gradebook(g: GradebookV) -> XmlNode {
    XmlNode { name: "Gradebook"@, kids: seq![node_of_courses(g.courses)], text: Seq::<char>::empty() }
}

/// The canonical document for a whole grade book.
pub open spec fn node_of_gbdata(g: GbDataV) -> XmlNode {
    XmlNode { name: "GbData"@, kids: seq![node_of_gradebook(g.gradebook)], text: Seq::<char>::empty() }
}

/// A mark the wire can carry back and forth: the score character is not
/// markup and the percentage reads back from its rendering.
pub open spec fn wf_mark(m: MarkV) -> bool {
    is_text_char(m.grade) && wf_decimal(m.percent)
}

pub open spec fn wf_marks(ms: MarksV) -> bool {
    forall|i: int| 0 <= i < ms.mark.len() ==> wf_mark(#[trigger] ms.mark[i])
}

pub open spec fn wf_course(c: CourseV) -> bool {
    wf_text(c.class_name) && wf_text(c.staff) && wf_text(c.staff_email) && forall|i: int|
        0 <= i < c.marks.len() ==> wf_marks(#[trigger] c.marks[i])
}

pub open spec fn wf_courses(cs: CoursesV) -> bool {
    forall|i: int| 0 <= i < cs.course.len() ==> wf_course(#[trigger] cs.course[i])
}

pub open spec fn wf_gbdata(g: GbDataV) -> bool {
    wf_courses(g.gradebook.courses)
}

proof fn lemma_mark_nodes_push(ms: Seq<MarkV>, m: MarkV)
    ensures
        mark_nodes(ms.push(m)) == mark_nodes(ms).push(node_of_mark(m)),
    decreases ms.len(),
{
    if ms.len() == 0 {
        assert(ms.push(m).drop_first() =~= Seq::<MarkV>::empty());
        assert(mark_nodes(Seq::<MarkV>::empty()) =~= Seq::<XmlNode>::empty());
        assert(mark_nodes(ms.push(m)) =~= mark_nodes(ms).push(node_of_mark(m)));
    } else {
        assert(ms.push(m).drop_first() =~= ms.drop_first().push(m));
        lemma_mark_nodes_push(ms.drop_first(), m);
        assert(mark_nodes(ms.push(m)) =~= mark_nodes(ms).push(node_of_mark(m)));
    }
}

proof fn lemma_marks_nodes_push(ms: Seq<MarksV>, m: MarksV)
    ensures
        marks_nodes(ms.push(m)) == marks_nodes(ms).push(node_of_marks(m)),
    decreases ms.len(),
{
    if ms.len() == 0 {
        assert(ms.push(m).drop_first() =~= Seq::<MarksV>::empty());
        assert(marks_nodes(Seq::<MarksV>::empty()) =~= Seq::<XmlNode>::empty());
        assert(marks_nodes(ms.push(m)) =~= marks_nodes(ms).push(node_of_marks(m)));
    } else {
        assert(ms.push(m).drop_first() =~= ms.drop_first().push(m));
        lemma_marks_nodes_push(ms.drop_first(), m);
        assert(marks_nodes(ms.push(m)) =~= marks_nodes(ms).push(node_of_marks(m)));
    }
}

proof fn lemma_course_nodes_push(cs: Seq<CourseV>, c: CourseV)
    ensures
        course_nodes(cs.push(c)) == course_nodes(cs).push(node_of_course(c)),
    decreases cs.len(),
{
    if cs.len() == 0 {
        assert(cs.push(c).drop_first() =~= Seq::<CourseV>::empty());
        assert(course_nodes(Seq::<CourseV>::empty()) =~= Seq::<XmlNode>::empty());
        assert(course_nodes(cs.push(c)) =~= course_nodes(cs).push(node_of_course(c)));
    } else {
        assert(cs.push(c).drop_first() =~= cs.drop_first().push(c));
        lemma_course_nodes_push(cs.drop_first(), c);
        assert(course_nodes(cs.push(c)) =~= course_nodes(cs).push(node_of_course(c)));
    }
}

/// Builds the canonical element for one mark.
pub fn mark_to_node(m: &Mark) -> (r: Node)
    ensures
        node_view(r) == node_of_mark(m@),
{
    let mut grade_text = String::new();
    push_char(&mut grade_text, m.grade);
    proof {
        assert(grade_text@ =~= seq![m.grade]);
    }
    let c1 = text_node_exec("CalculatedScoreString", grade_text);
    let ghost c1g: Node = c1;
    let c2 = text_node_exec("CalculatedScoreRaw", decimal_to_string(&m.percent));
    let ghost c2g: Node = c2;
    let mut kids: Vec<Node> = Vec::new();
    kids.push(c1);
    kids.push(c2);
    let text = String::new();
    proof {
        assert(kids@ =~= seq![c1g, c2g]);
        assert(kids@.first() == c1g);
        assert(kids@.drop_first() =~= seq![c2g]);
        assert(seq![c2g].drop_first() =~= Seq::<Node>::empty());
        assert(nodes_view(Seq::<Node>::empty()) =~= Seq::<XmlNode>::empty());
        assert(nodes_view(seq![c2g]) =~= seq![node_view(c2g)]);
        assert(nodes_view(kids@) =~= seq![node_view(c1g), node_view(c2g)]);
        assert(nodes_view(kids@) =~= node_of_mark(m@).kids);
    }
    Node { name: "Mark".to_owned(), kids, text }
}

/// Builds the canonical element for one grading-period block.
pub fn marks_to_node(ms: &Marks) -> (r: Node)
    ensures
        node_view(r) == node_of_marks(ms@),
{
    let mut kids: Vec<Node> = Vec::new();
    proof {
        assert(nodes_view(kids@) =~= Seq::<XmlNode>::empty());
        assert(ms.mark@.subrange(0, 0).map_values(|m: Mark| m@) =~= Seq::<MarkV>::empty());
        assert(mark_nodes(Seq::<MarkV>::empty()) =~= Seq::<XmlNode>::empty());
    }
    let mut i: usize = 0;
    while i < ms.mark.len()
        invariant
            0 <= i <= ms.mark@.len(),
            nodes_view(kids@) == mark_nodes(
                ms.mark@.subrange(0, i as int).map_values(|m: Mark| m@),
            ),
        decreases ms.mark@.len() - i,
    {
        let child = mark_to_node(&ms.mark[i]);
        let ghost childg: Node = child;
        let ghost pre = kids@;
        kids.push(child);
        proof {
            lemma_nodes_view_push(pre, childg);
            let pv = ms.mark@.subrange(0, i as int).map_values(|m: Mark| m@);
            lemma_mark_nodes_push(pv, ms.mark@[i as int]@);
            assert(ms.mark@.subrange(0, i as int + 1).map_values(|m: Mark| m@) =~= pv.push(
                ms.mark@[i as int]@,
            ));
        }
        i = i + 1;
    }
    proof {
        assert(ms.mark@.subrange(0, ms.mark@.len() as int) =~= ms.mark@);
        assert(nodes_view(kids@) == mark_nodes(ms@.mark));
    }
    let text = String::new();
    Node { name: "Marks".to_owned(), kids, text }
}

/// Builds the canonical element for one course.
pub fn course_to_node(c: &Course) -> (r: Node)
    ensures
        node_view(r) == node_of_course(c@),
{
    let mut kids: Vec<Node> = Vec::new();
    let t1 = text_node_exec("Period", u64_to_string(c.period as u64));
    let ghost t1g: Node = t1;
    let t2 = text_node_exec("Title", c.class_name.clone());
    let ghost t2g: Node = t2;
    let t3 = text_node_exec("Room", u64_to_string(c.room as u64));
    let ghost t3g: Node = t3;
    let t4 = text_node_exec("Staff", c.staff.clone());
    let ghost t4g: Node = t4;
    let t5 = text_node_exec("StaffEMail", c.staff_email.clone());
    let ghost t5g: Node = t5;
    kids.push(t1);
    kids.push(t2);
    kids.push(t3);
    kids.push(t4);
    kids.push(t5);
    let ghost head: Seq<XmlNode> = seq![
        text_node("Period"@, dec_str(c@.period as nat)),
        text_node("Title"@, c@.class_name),
        text_node("Room"@, dec_str(c@.room as nat)),
        text_node("Staff"@, c@.staff),
        text_node("StaffEMail"@, c@.staff_email),
    ];
    proof {
        assert(kids@ =~= seq![t1g, t2g, t3g, t4g, t5g]);
        assert(kids@.first() == t1g);
        assert(kids@.drop_first() =~= seq![t2g, t3g, t4g, t5g]);
        assert(seq![t2g, t3g, t4g, t5g].drop_first() =~= seq![t3g, t4g, t5g]);
        assert(seq![t3g, t4g, t5g].drop_first() =~= seq![t4g, t5g]);
        assert(seq![t4g, t5g].drop_first() =~= seq![t5g]);
        assert(seq![t5g].drop_first() =~= Seq::<Node>::empty());
        assert(nodes_view(Seq::<Node>::empty()) =~= Seq::<XmlNode>::empty());
        assert(nodes_view(seq![t5g]) =~= seq![node_view(t5g)]);
        assert(nodes_view(seq![t4g, t5g]) =~= seq![node_view(t4g), node_view(t5g)]);
        assert(nodes_view(seq![t3g, t4g, t5g]) =~= seq![node_view(t3g), node_view(t4g), node_view(t5g)]);
        assert(nodes_view(seq![t2g, t3g, t4g, t5g]) =~= seq![node_view(t2g), node_view(t3g), node_view(t4g), node_view(t5g)]);
        assert(nodes_view(kids@) =~= head);
        assert(c.marks@.subrange(0, 0).map_values(|m: Marks| m@) =~= Seq::<MarksV>::empty());
        assert(marks_nodes(Seq::<MarksV>::empty()) =~= Seq::<XmlNode>::empty());
        assert(nodes_view(kids@) =~= head + marks_nodes(
            c.marks@.subrange(0, 0).map_values(|m: Marks| m@),
        ));
    }
    let mut i: usize = 0;
    while i < c.marks.len()
        invariant
            0 <= i <= c.marks@.len(),
            nodes_view(kids@) == head + marks_nodes(
                c.marks@.subrange(0, i as int).map_values(|m: Marks| m@),
            ),
        decreases c.marks@.len() - i,
    {
        let child = marks_to_node(&c.marks[i]);
        let ghost childg: Node = child;
        let ghost pre = kids@;
        kids.push(child);
        proof {
            lemma_nodes_view_push(pre, childg);
            let pv = c.marks@.subrange(0, i as int).map_values(|m: Marks| m@);
            lemma_marks_nodes_push(pv, c.marks@[i as int]@);
            assert(c.marks@.subrange(0, i as int + 1).map_values(|m: Marks| m@) =~= pv.push(
                c.marks@[i as int]@,
            ));
            assert(head + marks_nodes(pv.push(c.marks@[i as int]@)) =~= (head + marks_nodes(
                pv,
            )).push(node_of_marks(c.marks@[i as int]@)));
        }
        i = i + 1;
    }
    proof {
        assert(c.marks@.subrange(0, c.marks@.len() as int) =~= c.marks@);
        assert(nodes_view(kids@) == head + marks_nodes(c@.marks));
        assert(head + marks_nodes(c@.marks) =~= node_of_course(c@).kids);
    }
    let text = String::new();
    Node { name: "Course".to_owned(), kids, text }
}

/// Builds the canonical document for a whole grade book.
pub fn gbdata_to_node(g: &GbData) -> (r: Node)
    ensures
        node_view(r) == node_of_gbdata(g@),
{
    let mut course_kids: Vec<Node> = Vec::new();
    proof {
        assert(nodes_view(course_kids@) =~= Seq::<XmlNode>::empty());
        assert(g.gradebook.courses.course@.subrange(0, 0).map_values(|c: Course| c@)
            =~= Seq::<CourseV>::empty());
        assert(course_nodes(Seq::<CourseV>::empty()) =~= Seq::<XmlNode>::empty());
    }
    let mut i: usize = 0;
    while i < g.gradebook.courses.course.len()
        invariant
            0 <= i <= g.gradebook.courses.course@.len(),
            nodes_view(course_kids@) == course_nodes(
                g.gradebook.courses.course@.subrange(0, i as int).map_values(|c: Course| c@),
            ),
        decreases g.gradebook.courses.course@.len() - i,
    {
        let child = course_to_node(&g.gradebook.courses.course[i]);
        let ghost childg: Node = child;
        let ghost pre = course_kids@;
        course_kids.push(child);
        proof {
            lemma_nodes_view_push(pre, childg);
            let pv = g.gradebook.courses.course@.subrange(0, i as int).map_values(
                |c: Course| c@,
            );
            lemma_course_nodes_push(pv, g.gradebook.courses.course@[i as int]@);
            assert(g.gradebook.courses.course@.subrange(0, i as int + 1).map_values(
                |c: Course| c@,
            ) =~= pv.push(g.gradebook.courses.course@[i as int]@));
        }
        i = i + 1;
    }
    proof {
        assert(g.gradebook.courses.course@.subrange(
            0,
            g.gradebook.courses.course@.len() as int,
        ) =~= g.gradebook.courses.course@);
        assert(nodes_view(course_kids@) == course_nodes(g@.gradebook.courses.course));
    }
    let courses_node = Node { name: "Courses".to_owned(), kids: course_kids, text: String::new() };
    let ghost coursesg: Node = courses_node;
    proof {
        assert(node_view(coursesg) == node_of_courses(g@.gradebook.courses));
    }
    let mut gb_kids: Vec<Node> = Vec::new();
    gb_kids.push(courses_node);
    proof {
        assert(gb_kids@ =~= seq![coursesg]);
        assert(seq![coursesg].drop_first() =~= Seq::<Node>::empty());
        assert(nodes_view(Seq::<Node>::empty()) =~= Seq::<XmlNode>::empty());
        assert(nodes_view(gb_kids@) =~= seq![node_of_courses(g@.gradebook.courses)]);
    }
    let gb_node = Node { name: "Gradebook".to_owned(), kids: gb_kids, text: String::new() };
    let ghost gbg: Node = gb_node;
    proof {
        assert(node_view(gbg) == node_of_gradebook(g@.gradebook));
    }
    let mut root_kids: Vec<Node> = Vec::new();
    root_kids.push(gb_node);
    proof {
        assert(root_kids@ =~= seq![gbg]);
        assert(seq![gbg].drop_first() =~= Seq::<Node>::empty());
        assert(nodes_view(Seq::<Node>::empty()) =~= Seq::<XmlNode>::empty());
        assert(nodes_view(root_kids@) =~= seq![node_of_gradebook(g@.gradebook)]);
    }
    Node { name: "GbData".to_owned(), kids: root_kids, text: String::new() }
}

/// The reference serializer: renders a grade book as its canonical
/// document, the exact text `spec_decode_gradebook` reads back.
pub fn encode_gradebook(g: &GbData) -> (r: String)
    ensures
        r@ == ser_node(node_of_gbdata(g@)),
{
    let n = gbdata_to_node(g);
    node_to_string(&n)
}

pub proof fn lemma_mark_inv(m: MarkV)
    requires
        wf_mark(m),
    ensures
        wf_node(node_of_mark(m)),
        mark_of_node(node_of_mark(m)) == Ok::<MarkV, Seq<char>>(m),
{
    reveal_strlit("Mark");
    reveal_strlit("CalculatedScoreString");
    reveal_strlit("CalculatedScoreRaw");
    let n = node_of_mark(m);
    let c1 = text_node("CalculatedScoreString"@, seq![m.grade]);
    let c2 = text_node("CalculatedScoreRaw"@, ser_decimal(m.percent));
    // well-formedness
    assert(wf_name("Mark"@));
    assert(wf_name("CalculatedScoreString"@));
    assert(wf_name("CalculatedScoreRaw"@));
    assert(wf_text(seq![m.grade]));
    crate::xml::lemma_decimal_text(m.percent);
    crate::xml::lemma_text_node_wf("CalculatedScoreString"@, seq![m.grade]);
    crate::xml::lemma_text_node_wf("CalculatedScoreRaw"@, ser_decimal(m.percent));
    assert(n.kids.first() == c1);
    assert(n.kids.drop_first() =~= seq![c2]);
    assert(seq![c2].drop_first() =~= Seq::<XmlNode>::empty());
    assert(crate::xml::wf_kids(Seq::<XmlNode>::empty()));
    assert(crate::xml::wf_kids(seq![c2]));
    assert(crate::xml::wf_kids(n.kids));
    assert(wf_node(n));
    // mapping back
    assert("CalculatedScoreString"@ != "CalculatedScoreRaw"@);
    assert(find_kid(n.kids, "CalculatedScoreString"@) == Some(c1));
    assert(find_kid(n.kids, "CalculatedScoreRaw"@) == find_kid(seq![c2], "CalculatedScoreRaw"@));
    assert(find_kid(seq![c2], "CalculatedScoreRaw"@) == Some(c2));
    assert(kid_char(n, "CalculatedScoreString"@) == Some(m.grade)) by {
        assert(seq![m.grade].len() == 1);
        assert(seq![m.grade][0] == m.grade);
    }
    lemma_decimal_roundtrip(m.percent);
    assert(kid_decimal(n, "CalculatedScoreRaw"@) == Some(m.percent));
}

proof fn lemma_mark_nodes_inv(ms: Seq<MarkV>)
    requires
        forall|i: int| 0 <= i < ms.len() ==> wf_mark(#[trigger] ms[i]),
    ensures
        crate::xml::wf_kids(mark_nodes(ms)),
        marks_in(mark_nodes(ms)) == Ok::<Seq<MarkV>, Seq<char>>(ms),
    decreases ms,
{
    reveal_strlit("Mark");
    if ms.len() == 0 {
        assert(mark_nodes(ms) =~= Seq::<XmlNode>::empty());
        assert(marks_in(Seq::<XmlNode>::empty()) == Ok::<Seq<MarkV>, Seq<char>>(
            Seq::<MarkV>::empty(),
        ));
        assert(Seq::<MarkV>::empty() =~= ms);
    } else {
        lemma_mark_inv(ms.first());
        assert(forall|i: int| 0 <= i < ms.drop_first().len() ==> wf_mark(
            #[trigger] ms.drop_first()[i],
        )) by {
            assert(forall|i: int| 0 <= i < ms.drop_first().len() ==> ms.drop_first()[i] == ms[i
                + 1]);
        }
        lemma_mark_nodes_inv(ms.drop_first());
        let ks = mark_nodes(ms);
        assert(ks.first() == node_of_mark(ms.first()));
        assert(ks.drop_first() =~= mark_nodes(ms.drop_first()));
        assert(ks.first().name == "Mark"@);
        assert(marks_in(ks) == Ok::<Seq<MarkV>, Seq<char>>(seq![ms.first()] + ms.drop_first()));
        assert(seq![ms.first()] + ms.drop_first() =~= ms);
    }
}

pub proof fn lemma_marks_inv(ms: MarksV)
    requires
        wf_marks(ms),
    ensures
        wf_node(node_of_marks(ms)),
        marks_of_node(node_of_marks(ms)) == Ok::<MarksV, Seq<char>>(ms),
{
    reveal_strlit("Marks");
    lemma_mark_nodes_inv(ms.mark);
    assert(wf_name("Marks"@));
    let n = node_of_marks(ms);
    assert(wf_text(n.text));
    assert(n.kids.len() > 0 ==> n.text.len() == 0);
    assert(wf_node(n));
    assert(marks_of_node(n) == Ok::<MarksV, Seq<char>>(MarksV { mark: ms.mark }));
    assert(MarksV { mark: ms.mark } == ms);
}

proof fn lemma_marks_nodes_inv(ms: Seq<MarksV>)
    requires
        forall|i: int| 0 <= i < ms.len() ==> wf_marks(#[trigger] ms[i]),
    ensures
        crate::xml::wf_kids(marks_nodes(ms)),
        marks_list_in(marks_nodes(ms)) == Ok::<Seq<MarksV>, Seq<char>>(ms),
    decreases ms,
{
    reveal_strlit("Marks");
    if ms.len() == 0 {
        assert(marks_nodes(ms) =~= Seq::<XmlNode>::empty());
        assert(marks_list_in(Seq::<XmlNode>::empty()) == Ok::<Seq<MarksV>, Seq<char>>(
            Seq::<MarksV>::empty(),
        ));
        assert(Seq::<MarksV>::empty() =~= ms);
    } else {
        lemma_marks_inv(ms.first());
        assert(forall|i: int| 0 <= i < ms.drop_first().len() ==> wf_marks(
            #[trigger] ms.drop_first()[i],
        )) by {
            assert(forall|i: int| 0 <= i < ms.drop_first().len() ==> ms.drop_first()[i] == ms[i
                + 1]);
        }
        lemma_marks_nodes_inv(ms.drop_first());
        let ks = marks_nodes(ms);
        assert(ks.first() == node_of_marks(ms.first()));
        assert(ks.drop_first() =~= marks_nodes(ms.drop_first()));
        assert(ks.first().name == "Marks"@);
        assert(marks_list_in(ks) == Ok::<Seq<MarksV>, Seq<char>>(
            seq![ms.first()] + ms.drop_first(),
        ));
        assert(seq![ms.first()] + ms.drop_first() =~= ms);
    }
}

pub proof fn lemma_course_inv(c: CourseV)
    requires
        wf_course(c),
    ensures
        wf_node(node_of_course(c)),
        course_of_node(node_of_course(c)) == Ok::<CourseV, Seq<char>>(c),
{
    reveal_strlit("Course");
    reveal_strlit("Period");
    reveal_strlit("Title");
    reveal_strlit("Room");
    reveal_strlit("Staff");
    reveal_strlit("StaffEMail");
    reveal_strlit("Marks");
    let n = node_of_course(c);
    let t1 = text_node("Period"@, dec_str(c.period as nat));
    let t2 = text_node("Title"@, c.class_name);
    let t3 = text_node("Room"@, dec_str(c.room as nat));
    let t4 = text_node("Staff"@, c.staff);
    let t5 = text_node("StaffEMail"@, c.staff_email);
    let mns = marks_nodes(c.marks);
    let k0 = n.kids;
    let k1 = k0.drop_first();
    let k2 = k1.drop_first();
    let k3 = k2.drop_first();
    let k4 = k3.drop_first();
    let k5 = k4.drop_first();
    assert(k0 =~= seq![t1, t2, t3, t4, t5] + mns);
    assert(k0.first() == t1);
    assert(k1 =~= seq![t2, t3, t4, t5] + mns);
    assert(k1.first() == t2);
    assert(k2 =~= seq![t3, t4, t5] + mns);
    assert(k2.first() == t3);
    assert(k3 =~= seq![t4, t5] + mns);
    assert(k3.first() == t4);
    assert(k4 =~= seq![t5] + mns);
    assert(k4.first() == t5);
    assert(k5 =~= mns);
    // well-formedness
    lemma_dec_str_val(c.period as nat);
    lemma_dec_str_val(c.room as nat);
    crate::xml::lemma_digits_text(dec_str(c.period as nat));
    crate::xml::lemma_digits_text(dec_str(c.room as nat));
    assert(wf_name("Course"@));
    assert(wf_name("Period"@));
    assert(wf_name("Title"@));
    assert(wf_name("Room"@));
    assert(wf_name("Staff"@));
    assert(wf_name("StaffEMail"@));
    crate::xml::lemma_text_node_wf("Period"@, dec_str(c.period as nat));
    crate::xml::lemma_text_node_wf("Title"@, c.class_name);
    crate::xml::lemma_text_node_wf("Room"@, dec_str(c.room as nat));
    crate::xml::lemma_text_node_wf("Staff"@, c.staff);
    crate::xml::lemma_text_node_wf("StaffEMail"@, c.staff_email);
    lemma_marks_nodes_inv(c.marks);
    assert(crate::xml::wf_kids(k5));
    assert(crate::xml::wf_kids(k4));
    assert(crate::xml::wf_kids(k3));
    assert(crate::xml::wf_kids(k2));
    assert(crate::xml::wf_kids(k1));
    assert(crate::xml::wf_kids(k0));
    assert(wf_node(n));
    // distinct tag names
    assert("Period"@ != "Title"@);
    assert("Period"@ != "Room"@);
    assert("Period"@ != "Staff"@);
    assert("Period"@ != "StaffEMail"@);
    assert("Period"@ != "Marks"@);
    assert("Title"@ != "Room"@);
    assert("Title"@ != "Staff"@) by {
        assert("Title"@[0] == 'T');
        assert("Staff"@[0] == 'S');
    }
    assert("Title"@ != "StaffEMail"@);
    assert("Title"@ != "Marks"@) by {
        assert("Title"@[0] == 'T');
        assert("Marks"@[0] == 'M');
    }
    assert("Room"@ != "Staff"@);
    assert("Room"@ != "StaffEMail"@);
    assert("Room"@ != "Marks"@);
    assert("Staff"@ != "StaffEMail"@);
    assert("Staff"@ != "Marks"@) by {
        assert("Staff"@[0] == 'S');
        assert("Marks"@[0] == 'M');
    }
    assert("StaffEMail"@ != "Marks"@);
    // each field reads back
    assert(find_kid(k0, "Period"@) == Some(t1));
    assert(kid_u8(n, "Period"@) == Some(c.period)) by {
        assert(parse_u64_spec(dec_str(c.period as nat)) == Some(c.period as u64));
    }
    assert(find_kid(k0, "Title"@) == find_kid(k1, "Title"@));
    assert(find_kid(k1, "Title"@) == Some(t2));
    assert(kid_text(n, "Title"@) == Some(c.class_name));
    assert(find_kid(k0, "Room"@) == find_kid(k1, "Room"@));
    assert(find_kid(k1, "Room"@) == find_kid(k2, "Room"@));
    assert(find_kid(k2, "Room"@) == Some(t3));
    assert(kid_u32(n, "Room"@) == Some(c.room)) by {
        assert(parse_u64_spec(dec_str(c.room as nat)) == Some(c.room as u64));
    }
    assert(find_kid(k0, "Staff"@) == find_kid(k1, "Staff"@));
    assert(find_kid(k1, "Staff"@) == find_kid(k2, "Staff"@));
    assert(find_kid(k2, "Staff"@) == find_kid(k3, "Staff"@));
    assert(find_kid(k3, "Staff"@) == Some(t4));
    assert(kid_text(n, "Staff"@) == Some(c.staff));
    assert(find_kid(k0, "StaffEMail"@) == find_kid(k1, "StaffEMail"@));
    assert(find_kid(k1, "StaffEMail"@) == find_kid(k2, "StaffEMail"@));
    assert(find_kid(k2, "StaffEMail"@) == find_kid(k3, "StaffEMail"@));
    assert(find_kid(k3, "StaffEMail"@) == find_kid(k4, "StaffEMail"@));
    assert(find_kid(k4, "StaffEMail"@) == Some(t5));
    assert(kid_text(n, "StaffEMail"@) == Some(c.staff_email));
    // the marks list reads back
    assert(marks_list_in(k0) == marks_list_in(k1));
    assert(marks_list_in(k1) == marks_list_in(k2));
    assert(marks_list_in(k2) == marks_list_in(k3));
    assert(marks_list_in(k3) == marks_list_in(k4));
    assert(marks_list_in(k4) == marks_list_in(k5));
    assert(marks_list_in(k5) == Ok::<Seq<MarksV>, Seq<char>>(c.marks));
    assert(course_of_node(n) == Ok::<CourseV, Seq<char>>(
        CourseV {
            period: c.period,
            class_name: c.class_name,
            room: c.room,
            staff: c.staff,
            staff_email: c.staff_email,
            marks: c.marks,
        },
    ));
}

proof fn lemma_course_nodes_inv(cs: Seq<CourseV>)
    requires
        forall|i: int| 0 <= i < cs.len() ==> wf_course(#[trigger] cs[i]),
    ensures
        crate::xml::wf_kids(course_nodes(cs)),
        courses_in(course_nodes(cs)) == Ok::<Seq<CourseV>, Seq<char>>(cs),
    decreases cs,
{
    reveal_strlit("Course");
    if cs.len() == 0 {
        assert(course_nodes(cs) =~= Seq::<XmlNode>::empty());
        assert(courses_in(Seq::<XmlNode>::empty()) == Ok::<Seq<CourseV>, Seq<char>>(
            Seq::<CourseV>::empty(),
        ));
        assert(Seq::<CourseV>::empty() =~= cs);
    } else {
        lemma_course_inv(cs.first());
        assert(forall|i: int| 0 <= i < cs.drop_first().len() ==> wf_course(
            #[trigger] cs.drop_first()[i],
        )) by {
            assert(forall|i: int| 0 <= i < cs.drop_first().len() ==> cs.drop_first()[i] == cs[i
                + 1]);
        }
        lemma_course_nodes_inv(cs.drop_first());
        let ks = course_nodes(cs);
        assert(ks.first() == node_of_course(cs.first()));
        assert(ks.drop_first() =~= course_nodes(cs.drop_first()));
        assert(ks.first().name == "Course"@);
        assert(courses_in(ks) == Ok::<Seq<CourseV>, Seq<char>>(seq![cs.first()] + cs.drop_first()));
        assert(seq![cs.first()] + cs.drop_first() =~= cs);
    }
}

pub proof fn lemma_gbdata_inv(g: GbDataV)
    requires
        wf_gbdata(g),
    ensures
        wf_node(node_of_gbdata(g)),
        gbdata_of_node(node_of_gbdata(g)) == Ok::<GbDataV, Seq<char>>(g),
{
    reveal_strlit("GbData");
    reveal_strlit("Gradebook");
    reveal_strlit("Courses");
    lemma_course_nodes_inv(g.gradebook.courses.course);
    let cn = node_of_courses(g.gradebook.courses);
    let gn = node_of_gradebook(g.gradebook);
    let n = node_of_gbdata(g);
    assert(wf_name("GbData"@));
    assert(wf_name("Gradebook"@));
    assert(wf_name("Courses"@));
    assert(wf_node(cn));
    assert(gn.kids.first() == cn);
    assert(gn.kids.drop_first() =~= Seq::<XmlNode>::empty());
    assert(crate::xml::wf_kids(Seq::<XmlNode>::empty()));
    assert(crate::xml::wf_kids(gn.kids));
    assert(wf_node(gn));
    assert(n.kids.first() == gn);
    assert(n.kids.drop_first() =~= Seq::<XmlNode>::empty());
    assert(crate::xml::wf_kids(n.kids));
    assert(wf_node(n));
    assert(find_kid(n.kids, "Gradebook"@) == Some(gn));
    assert(find_kid(gn.kids, "Courses"@) == Some(cn));
    assert(courses_of_node(cn) == Ok::<CoursesV, Seq<char>>(
        CoursesV { course: g.gradebook.courses.course },
    ));
    assert(CoursesV { course: g.gradebook.courses.course } == g.gradebook.courses);
    assert(gradebook_of_node(gn) == Ok::<GradebookV, Seq<char>>(
        GradebookV { courses: g.gradebook.courses },
    ));
    assert(GradebookV { courses: g.gradebook.courses } == g.gradebook);
    assert(gbdata_of_node(n) == Ok::<GbDataV, Seq<char>>(GbDataV { gradebook: g.gradebook }));
    assert(GbDataV { gradebook: g.gradebook } == g);
}

/// Decoding is idempotent on re-parse for the grade-book shape: a model
/// rendered by the reference serializer decodes back to the same model.
pub proof fn lemma_gradebook_roundtrip(g: GbDataV)
    requires
        wf_gbdata(g),
    ensures
        spec_decode_gradebook(ser_node(node_of_gbdata(g))) == Ok::<GbDataV, Seq<char>>(g),
{
    lemma_gbdata_inv(g);
    let n = node_of_gbdata(g);
    let w = ser_node(n);
    assert(w.subrange(0, w.len() as int) =~= w);
    crate::xml::lemma_parse_ser_node(n, w, 0);
    assert(crate::xml::spec_parse_node(w, 0) == Some((n, w.len() as int)));
    assert(spec_parse_document(w) == Some(n));
}

} // verus!
