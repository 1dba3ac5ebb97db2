use studentvue::client::ParamBuilder;
use studentvue::enums::ParamType;

#[test]
fn xml_building() {
    let mut params = ParamBuilder::create()
        .add_elements(&[
            ParamType::AssignmentID("e2qekn"),
            ParamType::ChildIntID(1),
            ParamType::LanguageCode(0),
            ParamType::RequestDate("1/23/19"),
            ParamType::HealthImmunizations(true),
        ])
        .unwrap();

    let res = "<Parms><AssignmentID>e2qekn</AssignmentID><ChildIntID>1</ChildIntID><LanguageCode>0</LanguageCode><RequestDate>1/23/19</RequestDate><HealthImmunizations>true</HealthImmunizations></Parms>";
    assert_eq!(&params.build_string(), res);
}

#[test]
fn format_test() {
    let param = ParamType::ReportPeriod(7);
    assert_eq!(&param.to_string()[..], "<ReportPeriod>7</ReportPeriod>")
}

#[test]
fn empty_sequence_still_yields_container() {
    let params = ParamBuilder::create();
    assert_eq!(params.build_string(), "<Parms></Parms>");
}

#[test]
fn key_renders_fixed_identifier() {
    assert_eq!(
        ParamType::Key.to_string(),
        "<Key>5E4B7859-B805-474B-A833-FDB15D205D40</Key>"
    );
    // the rendering takes no payload: nothing else can influence it
    let mut b = ParamBuilder::create()
        .add_elements(&[ParamType::ChildIntID(42), ParamType::Key])
        .unwrap();
    assert!(b
        .build_string()
        .contains("<Key>5E4B7859-B805-474B-A833-FDB15D205D40</Key>"));
}

#[test]
fn element_order_is_preserved() {
    let mut ab = ParamBuilder::create()
        .add_elements(&[ParamType::ChildIntID(1), ParamType::ReportPeriod(2)])
        .unwrap();
    let mut ba = ParamBuilder::create()
        .add_elements(&[ParamType::ReportPeriod(2), ParamType::ChildIntID(1)])
        .unwrap();
    assert_eq!(
        ab.build_string(),
        "<Parms><ChildIntID>1</ChildIntID><ReportPeriod>2</ReportPeriod></Parms>"
    );
    assert_eq!(
        ba.build_string(),
        "<Parms><ReportPeriod>2</ReportPeriod><ChildIntID>1</ChildIntID></Parms>"
    );
    assert_ne!(ab.build_string(), ba.build_string());
}

#[test]
fn boolean_parameters_render_as_tokens() {
    assert_eq!(
        ParamType::HealthVisits(true).to_string(),
        "<HealthVisits>true</HealthVisits>"
    );
    assert_eq!(
        ParamType::HealthVisits(false).to_string(),
        "<HealthVisits>false</HealthVisits>"
    );
    assert_eq!(
        ParamType::LoadAllTerms.to_string(),
        "<LoadAllTerms>true</LoadAllTerms>"
    );
}

#[test]
fn numeric_parameters_render_in_decimal() {
    assert_eq!(
        ParamType::ChildIntID(0).to_string(),
        "<ChildIntID>0</ChildIntID>"
    );
    assert_eq!(
        ParamType::ChildIntID(18446744073709551615).to_string(),
        "<ChildIntID>18446744073709551615</ChildIntID>"
    );
    assert_eq!(
        ParamType::HealthConditions(907).to_string(),
        "<HealthConditions>907</HealthConditions>"
    );
}

#[test]
fn string_parameters_pass_through_verbatim() {
    assert_eq!(
        ParamType::MatchToDistrictZipCode("85003").to_string(),
        "<MatchToDistrictZipCode>85003</MatchToDistrictZipCode>"
    );
    // a zero-padded fixed-width code stays exactly as given
    assert_eq!(
        ParamType::StudentClassList("00").to_string(),
        "<StudentClassList>00</StudentClassList>"
    );
}

#[test]
fn add_elements_accumulates_across_calls() {
    let mut b = ParamBuilder::create();
    b.add_elements(&[ParamType::ChildIntID(5)]).unwrap();
    let snapshot = b.add_elements(&[ParamType::ReportPeriod(1)]).unwrap();
    assert_eq!(
        snapshot.build_string(),
        "<Parms><ChildIntID>5</ChildIntID><ReportPeriod>1</ReportPeriod></Parms>"
    );
    assert_eq!(b.build_string(), snapshot.build_string());
}

#[test]
fn grade_parameters_follow_reporting_period() {
    let none = studentvue::client::grade_parameters(None);
    assert_eq!(none.build_string(), "<Parms></Parms>");
    let some = studentvue::client::grade_parameters(Some(4));
    assert_eq!(
        some.build_string(),
        "<Parms><ReportPeriod>4</ReportPeriod></Parms>"
    );
}
