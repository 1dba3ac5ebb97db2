use studentvue::error::VueError;
use studentvue::model::attendance::{
    decode_attendance, encode_attendance, Absence, Absences, AttData, Attendance,
};
use studentvue::model::grade::{
    decode_gradebook, encode_gradebook, Course, Courses, GbData, Gradebook, Mark, Marks,
};
use studentvue::model::schedule::{
    decode_schedule, encode_schedule, Class, ClassList, Schedule, StudentClassSchedule,
};
use studentvue::model::school::{
    decode_school, encode_school, SchoolInfo, Staff, StaffList, StudentSchoolInfoListing,
};
use studentvue::model::student::{decode_student, encode_student, Student, StudentInfo};
use studentvue::numeric::Decimal;

fn sample_gradebook() -> GbData {
    GbData {
        gradebook: Gradebook {
            courses: Courses {
                course: vec![Course {
                    period: 3,
                    class_name: "Algebra II".to_string(),
                    room: 101,
                    staff: "Jane Roe".to_string(),
                    staff_email: "jroe@school.org".to_string(),
                    marks: vec![Marks {
                        mark: vec![Mark {
                            grade: 'A',
                            percent: Decimal {
                                whole: 93,
                                frac: "5".to_string(),
                            },
                        }],
                    }],
                }],
            },
        },
    }
}

#[test]
fn gradebook_scenario_decodes_exactly() {
    let xml = "<GbData><Gradebook><Courses><Course><Period>3</Period><Title>Algebra II</Title><Room>101</Room><Staff>Jane Roe</Staff><StaffEMail>jroe@school.org</StaffEMail><Marks><Mark><CalculatedScoreString>A</CalculatedScoreString><CalculatedScoreRaw>93.5</CalculatedScoreRaw></Mark></Marks></Course></Courses></Gradebook></GbData>";
    let gb = decode_gradebook(xml).unwrap();
    assert_eq!(gb.gradebook.courses.course.len(), 1);
    let course = &gb.gradebook.courses.course[0];
    assert_eq!(course.period, 3);
    assert_eq!(course.class_name, "Algebra II");
    assert_eq!(course.room, 101);
    assert_eq!(course.staff, "Jane Roe");
    assert_eq!(course.staff_email, "jroe@school.org");
    assert_eq!(course.marks.len(), 1);
    assert_eq!(course.marks[0].mark.len(), 1);
    let mark = &course.marks[0].mark[0];
    assert_eq!(mark.grade, 'A');
    assert_eq!(mark.percent.whole, 93);
    assert_eq!(mark.percent.frac, "5");
    // 93.5, exactly, once carried back into floating point
    assert_eq!(mark.percent.whole as f32 + 0.5f32, 93.5f32);
}

#[test]
fn gradebook_reencodes_and_decodes_to_equal_model() {
    let gb = sample_gradebook();
    let text = encode_gradebook(&gb);
    let again = decode_gradebook(&text).unwrap();
    assert_eq!(again, gb);
}

#[test]
fn gradebook_missing_required_field_names_it() {
    // no Title anywhere in the course
    let xml = "<GbData><Gradebook><Courses><Course><Period>3</Period><Room>101</Room><Staff>S</Staff><StaffEMail>e</StaffEMail></Course></Courses></Gradebook></GbData>";
    let err = decode_gradebook(xml).unwrap_err();
    match err {
        VueError::Xml(msg) => assert!(msg.contains("Title")),
        other => panic!("expected a decoding failure, got {:?}", other),
    }
}

#[test]
fn non_digit_numeric_field_is_an_error_not_zero() {
    let xml = "<GbData><Gradebook><Courses><Course><Period>3a</Period><Title>T</Title><Room>101</Room><Staff>S</Staff><StaffEMail>e</StaffEMail></Course></Courses></Gradebook></GbData>";
    let err = decode_gradebook(xml).unwrap_err();
    assert!(matches!(err, VueError::Xml(_)));
}

#[test]
fn numeric_overflow_is_an_error() {
    // one above what a u32 room number can hold
    let xml = "<GbData><Gradebook><Courses><Course><Period>3</Period><Title>T</Title><Room>4294967296</Room><Staff>S</Staff><StaffEMail>e</StaffEMail></Course></Courses></Gradebook></GbData>";
    assert!(decode_gradebook(xml).is_err());
}

#[test]
fn multi_character_grade_is_an_error_not_a_truncation() {
    let xml = "<GbData><Gradebook><Courses><Course><Period>3</Period><Title>T</Title><Room>1</Room><Staff>S</Staff><StaffEMail>e</StaffEMail><Marks><Mark><CalculatedScoreString>A+</CalculatedScoreString><CalculatedScoreRaw>97</CalculatedScoreRaw></Mark></Marks></Course></Courses></Gradebook></GbData>";
    assert!(decode_gradebook(xml).is_err());
}

#[test]
fn zero_courses_decode_to_empty_sequence() {
    let xml = "<GbData><Gradebook><Courses></Courses></Gradebook></GbData>";
    let gb = decode_gradebook(xml).unwrap();
    assert_eq!(gb.gradebook.courses.course.len(), 0);
}

#[test]
fn unknown_extra_fields_are_ignored() {
    let xml = "<GbData><Gradebook><Courses><Course><Whatever>junk</Whatever><Period>3</Period><Title>T</Title><Room>1</Room><Staff>S</Staff><StaffEMail>e</StaffEMail></Course></Courses></Gradebook></GbData>";
    let gb = decode_gradebook(xml).unwrap();
    assert_eq!(gb.gradebook.courses.course[0].period, 3);
    assert_eq!(gb.gradebook.courses.course[0].marks.len(), 0);
}

#[test]
fn malformed_document_is_a_decoding_error() {
    assert!(matches!(
        decode_gradebook("<GbData><Gradebook>"),
        Err(VueError::Xml(_))
    ));
    assert!(matches!(decode_gradebook(""), Err(VueError::Xml(_))));
    assert!(matches!(
        decode_gradebook("<A>x</B>"),
        Err(VueError::Xml(_))
    ));
}

#[test]
fn attendance_roundtrip_and_empty_list() {
    let att = AttData {
        attendance: Attendance {
            absences: Absences {
                absence: vec![Absence {
                    absence_date: "1/23/19".to_string(),
                    reason: "Illness".to_string(),
                    note: "doctor visit".to_string(),
                }],
            },
        },
    };
    let text = encode_attendance(&att);
    assert_eq!(decode_attendance(&text).unwrap(), att);

    let none = "<AttData><Attendance><Absences></Absences></Attendance></AttData>";
    let decoded = decode_attendance(none).unwrap();
    assert_eq!(decoded.attendance.absences.absence.len(), 0);
}

#[test]
fn attendance_missing_required_field_names_it() {
    let xml = "<AttData><Attendance><Absences><Absence><AbsenceDate>1/2/19</AbsenceDate><Note>n</Note></Absence></Absences></Attendance></AttData>";
    match decode_attendance(xml).unwrap_err() {
        VueError::Xml(msg) => assert!(msg.contains("Reason")),
        other => panic!("expected a decoding failure, got {:?}", other),
    }
}

#[test]
fn schedule_roundtrip() {
    let sched = StudentClassSchedule {
        schedule: Schedule {
            term: 2,
            class_list: ClassList {
                class: vec![
                    Class {
                        period: 1,
                        course_title: "Chemistry".to_string(),
                        room_name: "CAFE".to_string(),
                        teacher: "R. Smith".to_string(),
                        teacher_email: "rs@school.org".to_string(),
                    },
                    Class {
                        period: 2,
                        course_title: "History".to_string(),
                        room_name: "12".to_string(),
                        teacher: "L. Jones".to_string(),
                        teacher_email: "lj@school.org".to_string(),
                    },
                ],
            },
        },
    };
    let text = encode_schedule(&sched);
    let again = decode_schedule(&text).unwrap();
    assert_eq!(again, sched);
    assert_eq!(again.schedule.class_list.class[1].course_title, "History");
}

#[test]
fn school_roundtrip_preserves_all_caps_url_field() {
    let school = StudentSchoolInfoListing {
        school_info: SchoolInfo {
            school_name: "Central High".to_string(),
            principal: "A. Principal".to_string(),
            school_address: "1 Main St".to_string(),
            school_city: "Phoenix".to_string(),
            school_state: "AZ".to_string(),
            school_zip: 85003,
            phone: "555-0100".to_string(),
            url: "http://example.org".to_string(),
            staff_list: StaffList {
                staff: vec![Staff {
                    name: "B. Counselor".to_string(),
                    email: "bc@school.org".to_string(),
                    title: "Counselor".to_string(),
                    phone: "555-0101".to_string(),
                }],
            },
        },
    };
    let text = encode_school(&school);
    // the web address is spelled URL, in capitals, unlike its siblings
    assert!(text.contains("<URL>http://example.org</URL>"));
    assert!(text.contains("<SchoolZip>85003</SchoolZip>"));
    let again = decode_school(&text).unwrap();
    assert_eq!(again, school);
}

fn sample_student(nickname: Option<String>) -> Student {
    Student {
        student_info: StudentInfo {
            name: "Ben Franklin".to_string(),
            id: 904511,
            gender: "Male".to_string(),
            grade: 11,
            address: "36 Craven St".to_string(),
            nickname,
            birth_date: "1/17/1990".to_string(),
            email: "bf@school.org".to_string(),
            phone: "555-0199".to_string(),
            current_school: "Central High".to_string(),
        },
    }
}

#[test]
fn student_roundtrip_with_and_without_nickname() {
    let with = sample_student(Some("Benny".to_string()));
    let text = encode_student(&with);
    assert_eq!(decode_student(&text).unwrap(), with);

    let without = sample_student(None);
    let text = encode_student(&without);
    assert_eq!(decode_student(&text).unwrap(), without);
}

#[test]
fn missing_optional_nickname_decodes_to_absent() {
    let xml = "<Student><StudentInfo><FormattedName>Ben Franklin</FormattedName><PermID>904511</PermID><Gender>Male</Gender><Grade>11</Grade><Address>36 Craven St</Address><BirthDate>1/17/1990</BirthDate><EMail>bf@school.org</EMail><Phone>555-0199</Phone><CurrentSchool>Central High</CurrentSchool></StudentInfo></Student>";
    let student = decode_student(xml).unwrap();
    assert_eq!(student.student_info.nickname, None);
    assert_eq!(student.student_info.id, 904511);
    assert_eq!(student.student_info.grade, 11);
}

#[test]
fn present_nickname_decodes_to_its_value() {
    let xml = "<Student><StudentInfo><FormattedName>Ben Franklin</FormattedName><PermID>904511</PermID><Gender>Male</Gender><Grade>11</Grade><Address>36 Craven St</Address><Nickname>Benny</Nickname><BirthDate>1/17/1990</BirthDate><EMail>bf@school.org</EMail><Phone>555-0199</Phone><CurrentSchool>Central High</CurrentSchool></StudentInfo></Student>";
    let student = decode_student(xml).unwrap();
    assert_eq!(student.student_info.nickname, Some("Benny".to_string()));
}

#[test]
fn student_missing_required_field_names_it() {
    let xml = "<Student><StudentInfo><FormattedName>B</FormattedName><PermID>1</PermID><Gender>M</Gender><Grade>11</Grade><Address>a</Address><BirthDate>b</BirthDate><EMail>e</EMail><Phone>p</Phone></StudentInfo></Student>";
    match decode_student(xml).unwrap_err() {
        VueError::Xml(msg) => assert!(msg.contains("CurrentSchool")),
        other => panic!("expected a decoding failure, got {:?}", other),
    }
}
