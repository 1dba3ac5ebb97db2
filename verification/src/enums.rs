//! The operation registry and the typed parameter model.
//!
//! `WebServiceHandle` and `Method` are the closed enumerations of remote
//! procedures; each value has exactly one wire string, fixed here.  Several
//! wire spellings differ from the enumeration name (the grade-book method's
//! wire name is `"Gradebook"`, lower-case `b`); these quirks are part of the
//! external contract and are reproduced verbatim.
//!
//! `ParamType` is the closed set of typed parameters a call may carry.  The
//! XML tag of each variant is fixed by the variant itself, never supplied by
//! the caller, so a caller cannot inject a malformed tag.

use vstd::prelude::*;
use crate::numeric::{dec_str, u64_to_string};

verus! {

#[derive(Debug, Clone, Copy)]
pub enum WebServiceHandle {
    PXPWebServices,
    HDInfoServices,
}

#[derive(Debug, Clone, Copy)]
pub enum Method {
    Attendance,
    StudentHealthInfo,
    GetStudentDocumentInitialData,
    GradeBook,
    StudentCalendar,
    TestWebServiceURL,
    ChildList,
    GetSupportedLanguages,
    GetContentOfAttachedDoc,
    StudentCalendarAssignmentDetails,
    SaveSoundFileData,
    UploadGBDocDataForStudentAssignment,
    StudentHWNotes,
    UpdateStudentHWNotes,
    StudentInfo,
    UpdatePXPMessage,
    StudentSchoolInfo,
    UpdateDeviceToken,
    StudentDisciplineInfo,
    GenerateAuthToken,
    StudentConference,
    GetMatchingDistrictList,
    StudentFee,
    PXPContentClassWebSiteGetFileXML,
    GetPXPMessages,
    GetContentUserDefinedModule,
    GetSoundFileData,
    GetAttachedDocToAssignment,
    GetClassWebSiteData,
    GetContentOfGBAttachedDoc,
    GetReportCardInitialData,
    GetReportCardDocumentData,
    GetSpecialEdData,
    StudentClassList,
}

#[derive(Debug, PartialEq, PartialOrd)]
pub enum Language {
    English,
    Spanish,
}

/// The wire string of a service handle.
pub open spec fn handle_wire(h: WebServiceHandle) -> Seq<char> {
    match h {
        WebServiceHandle::PXPWebServices => "PXPWebServices"@,
        WebServiceHandle::HDInfoServices => "HDInfoServices"@,
    }
}

/// The wire string of a method.  Two spellings deliberately differ from the
/// enumeration name: the grade-book method and the class-web-site file
/// method, whose nonstandard capitalizations the remote service requires.
pub open spec fn method_wire(m: Method) -> Seq<char> {
    match m {
        Method::Attendance => "Attendance"@,
        Method::StudentHealthInfo => "StudentHealthInfo"@,
        Method::GetStudentDocumentInitialData => "GetStudentDocumentInitialData"@,
        Method::GradeBook => "Gradebook"@,
        Method::StudentCalendar => "StudentCalendar"@,
        Method::TestWebServiceURL => "TestWebServiceURL"@,
        Method::ChildList => "ChildList"@,
        Method::GetSupportedLanguages => "GetSupportedLanguages"@,
        Method::GetContentOfAttachedDoc => "GetContentOfAttachedDoc"@,
        Method::StudentCalendarAssignmentDetails => "StudentCalendarAssignmentDetails"@,
        Method::SaveSoundFileData => "SaveSoundFileData"@,
        Method::UploadGBDocDataForStudentAssignment => "UploadGBDocumentDataForStudentAssigment"@,
        Method::StudentHWNotes => "StudentHWNotes"@,
        Method::UpdateStudentHWNotes => "UpdateStudentHWNotes"@,
        Method::StudentInfo => "StudentInfo"@,
        Method::UpdatePXPMessage => "UpdatePXPMessage"@,
        Method::StudentSchoolInfo => "StudentSchoolInfo"@,
        Method::UpdateDeviceToken => "UpdateDeviceToken"@,
        Method::StudentDisciplineInfo => "StudentDisciplineInfo"@,
        Method::GenerateAuthToken => "GenerateAuthToken"@,
        Method::StudentConference => "StudentConference"@,
        Method::GetMatchingDistrictList => "GetMatchingDistrictList"@,
        Method::StudentFee => "StudentFee"@,
        Method::PXPContentClassWebSiteGetFileXML => "PXPContentCLassWebSiteGetFileXML"@,
        Method::GetPXPMessages => "GetPXPMessages"@,
        Method::GetContentUserDefinedModule => "GetContentUserDefinedModule"@,
        Method::GetSoundFileData => "GetSoundFileData"@,
        Method::GetAttachedDocToAssignment => "GetAttachedDocToAssignment"@,
        Method::GetClassWebSiteData => "GetClassWebSiteData"@,
        Method::GetContentOfGBAttachedDoc => "GetContentOfGBAttachedDoc"@,
        Method::GetReportCardInitialData => "GetReportCardInitialData"@,
        Method::GetReportCardDocumentData => "GetReportCardDocumentData"@,
        Method::GetSpecialEdData => "GetSpecialEdData"@,
        Method::StudentClassList => "StudentClassList"@,
    }
}

impl WebServiceHandle {
    /// The exact wire string the remote service recognizes for this handle.
    /// This mapping is total: every handle has exactly one wire string.
    pub fn wire_name(self) -> (r: &'static str)
        ensures
            r@ == handle_wire(self),
    {
        match self {
            WebServiceHandle::PXPWebServices => "PXPWebServices",
            WebServiceHandle::HDInfoServices => "HDInfoServices",
        }
    }
}

impl Method {
    /// The exact wire string the remote service recognizes for this method.
    /// This mapping is total: every method has exactly one wire string.
    pub fn wire_name(self) -> (r: &'static str)
        ensures
            r@ == method_wire(self),
    {
        match self {
            Method::Attendance => "Attendance",
            Method::StudentHealthInfo => "StudentHealthInfo",
            Method::GetStudentDocumentInitialData => "GetStudentDocumentInitialData",
            Method::GradeBook => "Gradebook",
            Method::StudentCalendar => "StudentCalendar",
            Method::TestWebServiceURL => "TestWebServiceURL",
            Method::ChildList => "ChildList",
            Method::GetSupportedLanguages => "GetSupportedLanguages",
            Method::GetContentOfAttachedDoc => "GetContentOfAttachedDoc",
            Method::StudentCalendarAssignmentDetails => "StudentCalendarAssignmentDetails",
            Method::SaveSoundFileData => "SaveSoundFileData",
            Method::UploadGBDocDataForStudentAssignment => "UploadGBDocumentDataForStudentAssigment",
            Method::StudentHWNotes => "StudentHWNotes",
            Method::UpdateStudentHWNotes => "UpdateStudentHWNotes",
            Method::StudentInfo => "StudentInfo",
            Method::UpdatePXPMessage => "UpdatePXPMessage",
            Method::StudentSchoolInfo => "StudentSchoolInfo",
            Method::UpdateDeviceToken => "UpdateDeviceToken",
            Method::StudentDisciplineInfo => "StudentDisciplineInfo",
            Method::GenerateAuthToken => "GenerateAuthToken",
            Method::StudentConference => "StudentConference",
            Method::GetMatchingDistrictList => "GetMatchingDistrictList",
            Method::StudentFee => "StudentFee",
            Method::PXPContentClassWebSiteGetFileXML => "PXPContentCLassWebSiteGetFileXML",
            Method::GetPXPMessages => "GetPXPMessages",
            Method::GetContentUserDefinedModule => "GetContentUserDefinedModule",
            Method::GetSoundFileData => "GetSoundFileData",
            Method::GetAttachedDocToAssignment => "GetAttachedDocToAssignment",
            Method::GetClassWebSiteData => "GetClassWebSiteData",
            Method::GetContentOfGBAttachedDoc => "GetContentOfGBAttachedDoc",
            Method::GetReportCardInitialData => "GetReportCardInitialData",
            Method::GetReportCardDocumentData => "GetReportCardDocumentData",
            Method::GetSpecialEdData => "GetSpecialEdData",
            Method::StudentClassList => "StudentClassList",
        }
    }
}

impl Language {
    /// The numeric language code the service expects for this language.
    pub fn code(self) -> (r: u64)
        ensures
            self is English ==> r == 0,
            self is Spanish ==> r == 1,
    {
        match self {
            Language::English => 0,
            Language::Spanish => 1,
        }
    }
}

/// One typed parameter for a call.  The XML tag is fixed per variant; the
/// payload is the value the caller supplies.  `Key` carries no payload: it
/// always renders as the protocol's fixed correlation identifier.
#[derive(Debug, PartialEq)]
pub enum ParamType<'a> {
    ChildIntID(u64),
    HealthConditions(u64),
    HealthVisits(bool),
    HealthImmunizations(bool),
    ReportPeriod(u64),
    ConcurrentSchOrgYearGU(&'a str),
    LoadAllTerms,
    RequestDate(&'a str),
    AssignmentID(&'a str),
    LanguageCode(u64),
    ClassGU(&'a str),
    StudentClassList(&'a str),
    SoundFileListing(&'a str),
    GBDocumentData(&'a str),
    Key,
    MatchToDistrictZipCode(&'a str),
}

pub open spec fn bool_str(b: bool) -> Seq<char> {
    if b {
        "true"@
    } else {
        "false"@
    }
}

/// The exact XML rendering of one parameter: `<Tag>value</Tag>`, where the
/// tag is fixed by the variant, an unsigned payload renders as its canonical
/// decimal numeral, a boolean as `true`/`false`, and `Key` as the fixed
/// correlation identifier.
pub open spec fn param_xml(p: ParamType) -> Seq<char> {
    match p {
        ParamType::ChildIntID(id) => "<ChildIntID>"@ + dec_str(id as nat) + "</ChildIntID>"@,
        ParamType::HealthConditions(c) => "<HealthConditions>"@ + dec_str(c as nat)
            + "</HealthConditions>"@,
        ParamType::HealthVisits(v) => "<HealthVisits>"@ + bool_str(v) + "</HealthVisits>"@,
        ParamType::HealthImmunizations(imm) => "<HealthImmunizations>"@ + bool_str(imm)
            + "</HealthImmunizations>"@,
        ParamType::ReportPeriod(period) => "<ReportPeriod>"@ + dec_str(period as nat)
            + "</ReportPeriod>"@,
        ParamType::ConcurrentSchOrgYearGU(gu) => "<ConcurrentSchOrgYearGU>"@ + gu@
            + "</ConcurrentSchOrgYearGU>"@,
        ParamType::LoadAllTerms => "<LoadAllTerms>true</LoadAllTerms>"@,
        ParamType::RequestDate(date) => "<RequestDate>"@ + date@ + "</RequestDate>"@,
        ParamType::AssignmentID(id) => "<AssignmentID>"@ + id@ + "</AssignmentID>"@,
        ParamType::LanguageCode(lang_id) => "<LanguageCode>"@ + dec_str(lang_id as nat)
            + "</LanguageCode>"@,
        ParamType::ClassGU(class_gu) => "<ClassGU>"@ + class_gu@ + "</ClassGU>"@,
        ParamType::StudentClassList(list) => "<StudentClassList>"@ + list@
            + "</StudentClassList>"@,
        ParamType::SoundFileListing(listing) => "<SoundFileListing>"@ + listing@
            + "</SoundFileListing>"@,
        ParamType::GBDocumentData(data) => "<GBDocumentData>"@ + data@ + "</GBDocumentData>"@,
        ParamType::Key => "<Key>5E4B7859-B805-474B-A833-FDB15D205D40</Key>"@,
        ParamType::MatchToDistrictZipCode(zip) => "<MatchToDistrictZipCode>"@ + zip@
            + "</MatchToDistrictZipCode>"@,
    }
}

impl<'p> ParamType<'p> {
    /// Renders this parameter as its exact XML element.
    pub fn to_string(&self) -> (r: String)
        ensures
            r@ == param_xml(*self),
    {
        match self {
            ParamType::ChildIntID(id) => tag_u64("<ChildIntID>", *id, "</ChildIntID>"),
            ParamType::HealthConditions(c) => tag_u64(
                "<HealthConditions>",
                *c,
                "</HealthConditions>",
            ),
            ParamType::HealthVisits(v) => tag_str(
                "<HealthVisits>",
                bool_to_str(*v),
                "</HealthVisits>",
            ),
            ParamType::HealthImmunizations(imm) => tag_str(
                "<HealthImmunizations>",
                bool_to_str(*imm),
                "</HealthImmunizations>",
            ),
            ParamType::ReportPeriod(period) => tag_u64(
                "<ReportPeriod>",
                *period,
                "</ReportPeriod>",
            ),
            ParamType::ConcurrentSchOrgYearGU(gu) => tag_str(
                "<ConcurrentSchOrgYearGU>",
                gu,
                "</ConcurrentSchOrgYearGU>",
            ),
            ParamType::LoadAllTerms => "<LoadAllTerms>true</LoadAllTerms>".to_owned(),
            ParamType::RequestDate(date) => tag_str("<RequestDate>", date, "</RequestDate>"),
            ParamType::AssignmentID(id) => tag_str("<AssignmentID>", id, "</AssignmentID>"),
            ParamType::LanguageCode(lang_id) => tag_u64(
                "<LanguageCode>",
                *lang_id,
                "</LanguageCode>",
            ),
            ParamType::ClassGU(class_gu) => tag_str("<ClassGU>", class_gu, "</ClassGU>"),
            ParamType::StudentClassList(list) => tag_str(
                "<StudentClassList>",
                list,
                "</StudentClassList>",
            ),
            ParamType::SoundFileListing(listing) => tag_str(
                "<SoundFileListing>",
                listing,
                "</SoundFileListing>",
            ),
            ParamType::GBDocumentData(data) => tag_str(
                "<GBDocumentData>",
                data,
                "</GBDocumentData>",
            ),
            ParamType::Key => "<Key>5E4B7859-B805-474B-A833-FDB15D205D40</Key>".to_owned(),
            ParamType::MatchToDistrictZipCode(zip) => tag_str(
                "<MatchToDistrictZipCode>",
                zip,
                "</MatchToDistrictZipCode>",
            ),
        }
    }
}

fn bool_to_str(b: bool) -> (r: &'static str)
    ensures
        r@ == bool_str(b),
{
    if b {
        "true"
    } else {
        "false"
    }
}

fn tag_str(open: &str, value: &str, close: &str) -> (r: String)
    ensures
        r@ == open@ + value@ + close@,
{
    let mut s = open.to_owned();
    s.append(value);
    s.append(close);
    s
}

fn tag_u64(open: &str, value: u64, close: &str) -> (r: String)
    ensures
        r@ == open@ + dec_str(value as nat) + close@,
{
    let mut s = open.to_owned();
    let num = u64_to_string(value);
    s.append(num.as_str());
    s.append(close);
    s
}

} // verus!
