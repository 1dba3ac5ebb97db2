use studentvue::client::Client;
use studentvue::enums::{Language, Method, ParamType, WebServiceHandle};
use studentvue::error::VueError;
use studentvue::numeric::{parse_decimal, parse_u64, u64_to_string};
use studentvue::xml::unescape_entities;
use studentvue::ParamBuilder;

#[test]
fn gradebook_method_wire_name_is_lower_case_b() {
    assert_eq!(Method::GradeBook.wire_name(), "Gradebook");
}

#[test]
fn wire_name_quirks_are_reproduced_verbatim() {
    assert_eq!(
        Method::PXPContentClassWebSiteGetFileXML.wire_name(),
        "PXPContentCLassWebSiteGetFileXML"
    );
    assert_eq!(
        Method::UploadGBDocDataForStudentAssignment.wire_name(),
        "UploadGBDocumentDataForStudentAssigment"
    );
}

#[test]
fn regular_wire_names_match_their_enumeration() {
    assert_eq!(Method::Attendance.wire_name(), "Attendance");
    assert_eq!(Method::StudentInfo.wire_name(), "StudentInfo");
    assert_eq!(Method::StudentSchoolInfo.wire_name(), "StudentSchoolInfo");
    assert_eq!(Method::StudentClassList.wire_name(), "StudentClassList");
    assert_eq!(WebServiceHandle::PXPWebServices.wire_name(), "PXPWebServices");
    assert_eq!(WebServiceHandle::HDInfoServices.wire_name(), "HDInfoServices");
}

#[test]
fn language_codes() {
    assert_eq!(Language::English.code(), 0);
    assert_eq!(Language::Spanish.code(), 1);
}

#[test]
fn client_uri_appends_endpoint_path() {
    let client = Client::create("https://district.example.org", "user", "pwd");
    assert_eq!(
        client.uri,
        "https://district.example.org/Service/PXPCommunication.asmx/ProcessWebServiceRequest"
    );
    assert_eq!(client.user, "user");
    assert_eq!(client.pwd, "pwd");
}

#[test]
fn request_fields_hold_the_exact_form_set_in_order() {
    let client = Client::create("https://district.example.org", "usr", "pw");
    let mut params = ParamBuilder::create();
    params.add_elements(&[ParamType::ChildIntID(1)]).unwrap();
    let fields = client.request_fields(
        WebServiceHandle::PXPWebServices,
        Method::GradeBook,
        &params,
    );
    assert_eq!(fields.len(), 7);
    assert_eq!(fields[0], ("userID".to_string(), "usr".to_string()));
    assert_eq!(fields[1], ("password".to_string(), "pw".to_string()));
    assert_eq!(fields[2], ("skipLoginLog".to_string(), "true".to_string()));
    assert_eq!(fields[3], ("parent".to_string(), "false".to_string()));
    assert_eq!(
        fields[4],
        (
            "webServiceHandleName".to_string(),
            "PXPWebServices".to_string()
        )
    );
    assert_eq!(fields[5], ("methodName".to_string(), "Gradebook".to_string()));
    assert_eq!(
        fields[6],
        (
            "paramStr".to_string(),
            "<Parms><ChildIntID>1</ChildIntID></Parms>".to_string()
        )
    );
}

#[test]
fn unescape_restores_angle_brackets() {
    assert_eq!(
        unescape_entities("&lt;Gradebook&gt;text&lt;/Gradebook&gt;"),
        "<Gradebook>text</Gradebook>"
    );
    assert_eq!(unescape_entities("no entities"), "no entities");
    assert_eq!(unescape_entities("&lt;&gt;"), "<>");
    assert_eq!(unescape_entities("&amp;"), "&amp;");
    assert_eq!(unescape_entities(""), "");
}

#[test]
fn decimal_numerals_read_back() {
    assert_eq!(u64_to_string(0), "0");
    assert_eq!(u64_to_string(105), "105");
    assert_eq!(parse_u64("105"), Some(105));
    assert_eq!(parse_u64("0"), Some(0));
    assert_eq!(parse_u64(""), None);
    assert_eq!(parse_u64("1x"), None);
    assert_eq!(parse_u64("18446744073709551615"), Some(u64::MAX));
    assert_eq!(parse_u64("18446744073709551616"), None);
}

#[test]
fn decimal_fractions_read_exactly() {
    let d = parse_decimal("93.5").unwrap();
    assert_eq!(d.whole, 93);
    assert_eq!(d.frac, "5");
    let w = parse_decimal("97").unwrap();
    assert_eq!(w.whole, 97);
    assert_eq!(w.frac, "");
    assert!(parse_decimal("9a.5").is_none());
    assert!(parse_decimal("93.5.5").is_none());
    assert!(parse_decimal(".5").is_none());
}

#[test]
fn error_descriptions_name_their_kind() {
    let fmt = VueError::Format("broken".to_string());
    assert_eq!(fmt.describe(), "Formatting error occured: broken");
    let xml = VueError::Xml("missing required field: Title".to_string());
    assert_eq!(
        xml.describe(),
        "XML parsing error occuredmissing required field: Title"
    );
    let req = VueError::Request("status 500".to_string());
    assert_eq!(
        req.describe(),
        "An error occured during the server request: status 500"
    );
}
