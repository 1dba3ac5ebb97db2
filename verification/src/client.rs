//! The parameter encoder and the request-side client state.
//!
//! `ParamBuilder` accumulates the XML parameter fragment carried in the
//! `paramStr` form field: each parameter renders as `<Tag>value</Tag>`, in
//! caller order and with no separators beyond the tag syntax itself, and
//! `build_string` wraps the accumulated text in the `<Parms>` container.
//! The container is emitted even for an empty sequence, because the service
//! requires the field to be present and well-formed on every call.
//!
//! `Client` holds the service address and credentials and composes the
//! ordered form-field set of one call; issuing the POST itself is the
//! external transport collaborator's job.

use vstd::prelude::*;
use crate::enums::{param_xml, bool_str, handle_wire, method_wire, ParamType, WebServiceHandle, Method};
use crate::error::VueError;
use crate::numeric::dec_str;
use crate::xml::{
    XmlNode, text_node, ser_node, wf_node, wf_name, wf_text, lemma_text_node_wf,
    lemma_digits_text, lemma_parse_ser_node, spec_parse_node,
};

verus! {

/// The XML rendering of a parameter sequence: each element's
/// `<Tag>value</Tag>`, adjacent, with no separators beyond the tag syntax.
/// Order is preserved exactly; nothing is reordered, deduplicated or
/// sorted.
pub open spec fn params_fragment(ps: Seq<ParamType>) -> Seq<char>
    decreases ps.len(),
{
    if ps.len() == 0 {
        Seq::<char>::empty()
    } else {
        params_fragment(ps.drop_last()) + param_xml(ps.last())
    }
}

/// The complete `paramStr` field for a parameter sequence: the fragment
/// wrapped in the `<Parms>` container tags.
pub open spec fn parms_xml(ps: Seq<ParamType>) -> Seq<char> {
    "<Parms>"@ + params_fragment(ps) + "</Parms>"@
}

/// Parameter fragment builder.
#[derive(Debug, Clone)]
pub struct ParamBuilder {
    pub param_str: String,
}

impl ParamBuilder {
    /// Starts an empty parameter fragment.
    pub fn create() -> (r: Self)
        ensures
            r.param_str@ == Seq::<char>::empty(),
    {
        ParamBuilder { param_str: String::new() }
    }

    /// Appends the renderings of `params`, in order, to the fragment.
    ///
    /// Encoding typed parameters cannot fail; the fallible signature exists
    /// so that a failure of the underlying text composition would surface as
    /// an encoding error rather than truncate output silently.  Composition
    /// here is verified, so the result is always `Ok`, holding the grown
    /// builder.
    pub fn add_elements(&mut self, params: &[ParamType]) -> (r: Result<Self, VueError>)
        ensures
            final(self).param_str@ == old(self).param_str@ + params_fragment(params@),
            r matches Ok(b) && b.param_str@ == final(self).param_str@,
    {
        let mut i: usize = 0;
        while i < params.len()
            invariant
                0 <= i <= params@.len(),
                self.param_str@ == old(self).param_str@ + params_fragment(
                    params@.subrange(0, i as int),
                ),
            decreases params@.len() - i,
        {
            let rendered = params[i].to_string();
            self.param_str.append(rendered.as_str());
            proof {
                let pre = params@.subrange(0, i as int);
                let cur = params@.subrange(0, i as int + 1);
                assert(cur.drop_last() =~= pre);
                assert(cur.last() == params@[i as int]);
            }
            i = i + 1;
        }
        proof {
            assert(params@.subrange(0, params@.len() as int) =~= params@);
        }
        Ok(ParamBuilder { param_str: self.param_str.clone() })
    }

    /// Wraps the accumulated fragment in the `<Parms>` container.  The
    /// container is emitted even when no parameter was added.
    pub fn build_string(&self) -> (r: String)
        ensures
            r@ == "<Parms>"@ + self.param_str@ + "</Parms>"@,
    {
        let mut s = "<Parms>".to_owned();
        s.append(self.param_str.as_str());
        s.append("</Parms>");
        s
    }
}

/// Encoding an empty sequence still yields the container tag pair, with
/// nothing between the opening and closing tags.
pub proof fn lemma_encode_empty()
    ensures
        parms_xml(Seq::<ParamType>::empty()) == "<Parms></Parms>"@,
{
    reveal_strlit("<Parms>");
    reveal_strlit("</Parms>");
    reveal_strlit("<Parms></Parms>");
    assert(parms_xml(Seq::<ParamType>::empty()) =~= "<Parms></Parms>"@);
}

/// The `Key` parameter renders as the fixed correlation identifier, whatever
/// else the call carries: its rendering does not depend on any state.
pub proof fn lemma_key_fixed(p: ParamType)
    requires
        p is Key,
    ensures
        param_xml(p) == "<Key>5E4B7859-B805-474B-A833-FDB15D205D40</Key>"@,
{
}

/// Client state for one school district's service: the endpoint address
/// derived from the district's base address, and the credentials placed
/// into each call's field set.
#[derive(Debug, Clone, PartialEq)]
pub struct Client {
    pub uri: String,
    pub user: String,
    pub pwd: String,
}

impl Client {
    /// Builds a client for the district at `district_url`, addressing the
    /// fixed web-service endpoint path beneath it.
    pub fn create(district_url: &str, username: &str, password: &str) -> (r: Self)
        ensures
            r.uri@ == district_url@ + "/Service/PXPCommunication.asmx/ProcessWebServiceRequest"@,
            r.user@ == username@,
            r.pwd@ == password@,
    {
        let mut uri = district_url.to_owned();
        uri.append("/Service/PXPCommunication.asmx/ProcessWebServiceRequest");
        Client { uri, user: username.to_owned(), pwd: password.to_owned() }
    }

    /// The ordered form-field set of one call, exactly as the transport
    /// must POST it: credentials, the fixed `skipLoginLog`/`parent` flags,
    /// the two registry wire strings, and the encoded parameter fragment.
    pub fn request_fields(
        &self,
        web_service_handle: WebServiceHandle,
        method_name: Method,
        param_str: &ParamBuilder,
    ) -> (r: Vec<(String, String)>)
        ensures
            r@.len() == 7,
            r@[0].0@ == "userID"@ && r@[0].1@ == self.user@,
            r@[1].0@ == "password"@ && r@[1].1@ == self.pwd@,
            r@[2].0@ == "skipLoginLog"@ && r@[2].1@ == "true"@,
            r@[3].0@ == "parent"@ && r@[3].1@ == "false"@,
            r@[4].0@ == "webServiceHandleName"@ && r@[4].1@ == handle_wire(web_service_handle),
            r@[5].0@ == "methodName"@ && r@[5].1@ == method_wire(method_name),
            r@[6].0@ == "paramStr"@ && r@[6].1@ == "<Parms>"@ + param_str.param_str@
                + "</Parms>"@,
    {
        let mut fields: Vec<(String, String)> = Vec::new();
        fields.push(("userID".to_owned(), self.user.clone()));
        fields.push(("password".to_owned(), self.pwd.clone()));
        fields.push(("skipLoginLog".to_owned(), "true".to_owned()));
        fields.push(("parent".to_owned(), "false".to_owned()));
        fields.push(("webServiceHandleName".to_owned(), web_service_handle.wire_name().to_owned()));
        fields.push(("methodName".to_owned(), method_name.wire_name().to_owned()));
        fields.push(("paramStr".to_owned(), param_str.build_string()));
        fields
    }
}

/// The parameter sequence of a grade-book request: empty for the current
/// reporting period, the single `ReportPeriod` parameter for a past one.
pub fn grade_parameters(report_period: Option<u64>) -> (r: ParamBuilder)
    ensures
        match report_period {
            Some(p) => r.param_str@ == params_fragment(seq![ParamType::ReportPeriod(p)]),
            None => r.param_str@ == Seq::<char>::empty(),
        },
{
    match report_period {
        None => ParamBuilder::create(),
        Some(p) => {
            let mut b = ParamBuilder::create();
            let params = vec![ParamType::ReportPeriod(p)];
            let built = b.add_elements(params.as_slice());
            proof {
                assert(params@ =~= seq![ParamType::ReportPeriod(p)]);
                assert(Seq::<char>::empty() + params_fragment(params@) =~= params_fragment(
                    params@,
                ));
            }
            match built {
                Ok(out) => out,
                Err(_) => b,
            }
        },
    }
}

/// A parameter's rendering as an element: its fixed tag and its value
/// text.  Two parameters carry the same value exactly when their elements
/// are equal, so a sequence's element list stands for its content.
pub open spec fn leaf_of(p: ParamType) -> XmlNode {
    match p {
        ParamType::ChildIntID(id) => text_node("ChildIntID"@, dec_str(id as nat)),
        ParamType::HealthConditions(c) => text_node("HealthConditions"@, dec_str(c as nat)),
        ParamType::HealthVisits(v) => text_node("HealthVisits"@, bool_str(v)),
        ParamType::HealthImmunizations(imm) => text_node("HealthImmunizations"@, bool_str(imm)),
        ParamType::ReportPeriod(period) => text_node("ReportPeriod"@, dec_str(period as nat)),
        ParamType::ConcurrentSchOrgYearGU(gu) => text_node("ConcurrentSchOrgYearGU"@, gu@),
        ParamType::LoadAllTerms => text_node("LoadAllTerms"@, "true"@),
        ParamType::RequestDate(date) => text_node("RequestDate"@, date@),
        ParamType::AssignmentID(id) => text_node("AssignmentID"@, id@),
        ParamType::LanguageCode(l) => text_node("LanguageCode"@, dec_str(l as nat)),
        ParamType::ClassGU(g) => text_node("ClassGU"@, g@),
        ParamType::StudentClassList(l) => text_node("StudentClassList"@, l@),
        ParamType::SoundFileListing(l) => text_node("SoundFileListing"@, l@),
        ParamType::GBDocumentData(d) => text_node("GBDocumentData"@, d@),
        ParamType::Key => text_node("Key"@, "5E4B7859-B805-474B-A833-FDB15D205D40"@),
        ParamType::MatchToDistrictZipCode(z) => text_node("MatchToDistrictZipCode"@, z@),
    }
}

/// The element list a parameter sequence renders: its content, in order.
pub open spec fn leaves_of(ps: Seq<ParamType>) -> Seq<XmlNode> {
    ps.map_values(|p: ParamType| leaf_of(p))
}

/// A parameter the encoding keeps apart from its neighbours: a caller-
/// supplied text payload holds no `'<'`.
pub open spec fn wf_param(p: ParamType) -> bool {
    match p {
        ParamType::ConcurrentSchOrgYearGU(s) => wf_text(s@),
        ParamType::RequestDate(s) => wf_text(s@),
        ParamType::AssignmentID(s) => wf_text(s@),
        ParamType::ClassGU(s) => wf_text(s@),
        ParamType::StudentClassList(s) => wf_text(s@),
        ParamType::SoundFileListing(s) => wf_text(s@),
        ParamType::GBDocumentData(s) => wf_text(s@),
        ParamType::MatchToDistrictZipCode(s) => wf_text(s@),
        _ => true,
    }
}

pub open spec fn wf_params(ps: Seq<ParamType>) -> bool {
    forall|i: int| 0 <= i < ps.len() ==> wf_param(#[trigger] ps[i])
}

/// A parameter's XML rendering is its element's serialization.
pub proof fn lemma_param_xml_leaf(p: ParamType)
    ensures
        param_xml(p) == ser_node(leaf_of(p)),
{
    reveal_strlit("<");
    reveal_strlit(">");
    reveal_strlit("</");
    match p {
        ParamType::ChildIntID(id) => {
            reveal_strlit("ChildIntID");
            reveal_strlit("<ChildIntID>");
            reveal_strlit("</ChildIntID>");
            assert(param_xml(p) =~= ser_node(leaf_of(p)));
        },
        ParamType::HealthConditions(c) => {
            reveal_strlit("HealthConditions");
            reveal_strlit("<HealthConditions>");
            reveal_strlit("</HealthConditions>");
            assert(param_xml(p) =~= ser_node(leaf_of(p)));
        },
        ParamType::HealthVisits(v) => {
            reveal_strlit("HealthVisits");
            reveal_strlit("<HealthVisits>");
            reveal_strlit("</HealthVisits>");
            assert(param_xml(p) =~= ser_node(leaf_of(p)));
        },
        ParamType::HealthImmunizations(imm) => {
            reveal_strlit("HealthImmunizations");
            reveal_strlit("<HealthImmunizations>");
            reveal_strlit("</HealthImmunizations>");
            assert(param_xml(p) =~= ser_node(leaf_of(p)));
        },
        ParamType::ReportPeriod(period) => {
            reveal_strlit("ReportPeriod");
            reveal_strlit("<ReportPeriod>");
            reveal_strlit("</ReportPeriod>");
            assert(param_xml(p) =~= ser_node(leaf_of(p)));
        },
        ParamType::ConcurrentSchOrgYearGU(gu) => {
            reveal_strlit("ConcurrentSchOrgYearGU");
            reveal_strlit("<ConcurrentSchOrgYearGU>");
            reveal_strlit("</ConcurrentSchOrgYearGU>");
            assert(param_xml(p) =~= ser_node(leaf_of(p)));
        },
        ParamType::LoadAllTerms => {
            reveal_strlit("LoadAllTerms");
            reveal_strlit("true");
            reveal_strlit("<LoadAllTerms>true</LoadAllTerms>");
            assert(param_xml(p) =~= ser_node(leaf_of(p)));
        },
        ParamType::RequestDate(date) => {
            reveal_strlit("RequestDate");
            reveal_strlit("<RequestDate>");
            reveal_strlit("</RequestDate>");
            assert(param_xml(p) =~= ser_node(leaf_of(p)));
        },
        ParamType::AssignmentID(id) => {
            reveal_strlit("AssignmentID");
            reveal_strlit("<AssignmentID>");
            reveal_strlit("</AssignmentID>");
            assert(param_xml(p) =~= ser_node(leaf_of(p)));
        },
        ParamType::LanguageCode(l) => {
            reveal_strlit("LanguageCode");
            reveal_strlit("<LanguageCode>");
            reveal_strlit("</LanguageCode>");
            assert(param_xml(p) =~= ser_node(leaf_of(p)));
        },
        ParamType::ClassGU(g) => {
            reveal_strlit("ClassGU");
            reveal_strlit("<ClassGU>");
            reveal_strlit("</ClassGU>");
            assert(param_xml(p) =~= ser_node(leaf_of(p)));
        },
        ParamType::StudentClassList(l) => {
            reveal_strlit("StudentClassList");
            reveal_strlit("<StudentClassList>");
            reveal_strlit("</StudentClassList>");
            assert(param_xml(p) =~= ser_node(leaf_of(p)));
        },
        ParamType::SoundFileListing(l) => {
            reveal_strlit("SoundFileListing");
            reveal_strlit("<SoundFileListing>");
            reveal_strlit("</SoundFileListing>");
            assert(param_xml(p) =~= ser_node(leaf_of(p)));
        },
        ParamType::GBDocumentData(d) => {
            reveal_strlit("GBDocumentData");
            reveal_strlit("<GBDocumentData>");
            reveal_strlit("</GBDocumentData>");
            assert(param_xml(p) =~= ser_node(leaf_of(p)));
        },
        ParamType::Key => {
            reveal_strlit("Key");
            reveal_strlit("5E4B7859-B805-474B-A833-FDB15D205D40");
            reveal_strlit("<Key>5E4B7859-B805-474B-A833-FDB15D205D40</Key>");
            assert(param_xml(p) =~= ser_node(leaf_of(p)));
        },
        ParamType::MatchToDistrictZipCode(z) => {
            reveal_strlit("MatchToDistrictZipCode");
            reveal_strlit("<MatchToDistrictZipCode>");
            reveal_strlit("</MatchToDistrictZipCode>");
            assert(param_xml(p) =~= ser_node(leaf_of(p)));
        },
    }
}

/// A well-formed parameter's element is well formed.
pub proof fn lemma_leaf_wf(p: ParamType)
    requires
        wf_param(p),
    ensures
        wf_node(leaf_of(p)),
{
    reveal_strlit("true");
    reveal_strlit("false");
    match p {
        ParamType::ChildIntID(id) => {
            reveal_strlit("ChildIntID");
            crate::numeric::lemma_dec_str_val(id as nat);
            lemma_digits_text(dec_str(id as nat));
            assert(wf_name("ChildIntID"@));
            lemma_text_node_wf("ChildIntID"@, dec_str(id as nat));
        },
        ParamType::HealthConditions(c) => {
            reveal_strlit("HealthConditions");
            crate::numeric::lemma_dec_str_val(c as nat);
            lemma_digits_text(dec_str(c as nat));
            assert(wf_name("HealthConditions"@));
            lemma_text_node_wf("HealthConditions"@, dec_str(c as nat));
        },
        ParamType::HealthVisits(v) => {
            reveal_strlit("HealthVisits");
            assert(wf_name("HealthVisits"@));
            assert(wf_text(bool_str(v)));
            lemma_text_node_wf("HealthVisits"@, bool_str(v));
        },
        ParamType::HealthImmunizations(imm) => {
            reveal_strlit("HealthImmunizations");
            assert(wf_name("HealthImmunizations"@));
            assert(wf_text(bool_str(imm)));
            lemma_text_node_wf("HealthImmunizations"@, bool_str(imm));
        },
        ParamType::ReportPeriod(period) => {
            reveal_strlit("ReportPeriod");
            crate::numeric::lemma_dec_str_val(period as nat);
            lemma_digits_text(dec_str(period as nat));
            assert(wf_name("ReportPeriod"@));
            lemma_text_node_wf("ReportPeriod"@, dec_str(period as nat));
        },
        ParamType::ConcurrentSchOrgYearGU(gu) => {
            reveal_strlit("ConcurrentSchOrgYearGU");
            assert(wf_name("ConcurrentSchOrgYearGU"@));
            lemma_text_node_wf("ConcurrentSchOrgYearGU"@, gu@);
        },
        ParamType::LoadAllTerms => {
            reveal_strlit("LoadAllTerms");
            assert(wf_name("LoadAllTerms"@));
            assert(wf_text("true"@));
            lemma_text_node_wf("LoadAllTerms"@, "true"@);
        },
        ParamType::RequestDate(date) => {
            reveal_strlit("RequestDate");
            assert(wf_name("RequestDate"@));
            lemma_text_node_wf("RequestDate"@, date@);
        },
        ParamType::AssignmentID(id) => {
            reveal_strlit("AssignmentID");
            assert(wf_name("AssignmentID"@));
            lemma_text_node_wf("AssignmentID"@, id@);
        },
        ParamType::LanguageCode(l) => {
            reveal_strlit("LanguageCode");
            crate::numeric::lemma_dec_str_val(l as nat);
            lemma_digits_text(dec_str(l as nat));
            assert(wf_name("LanguageCode"@));
            lemma_text_node_wf("LanguageCode"@, dec_str(l as nat));
        },
        ParamType::ClassGU(g) => {
            reveal_strlit("ClassGU");
            assert(wf_name("ClassGU"@));
            lemma_text_node_wf("ClassGU"@, g@);
        },
        ParamType::StudentClassList(l) => {
            reveal_strlit("StudentClassList");
            assert(wf_name("StudentClassList"@));
            lemma_text_node_wf("StudentClassList"@, l@);
        },
        ParamType::SoundFileListing(l) => {
            reveal_strlit("SoundFileListing");
            assert(wf_name("SoundFileListing"@));
            lemma_text_node_wf("SoundFileListing"@, l@);
        },
        ParamType::GBDocumentData(d) => {
            reveal_strlit("GBDocumentData");
            assert(wf_name("GBDocumentData"@));
            lemma_text_node_wf("GBDocumentData"@, d@);
        },
        ParamType::Key => {
            reveal_strlit("Key");
            reveal_strlit("5E4B7859-B805-474B-A833-FDB15D205D40");
            assert(wf_name("Key"@));
            assert(wf_text("5E4B7859-B805-474B-A833-FDB15D205D40"@));
            lemma_text_node_wf("Key"@, "5E4B7859-B805-474B-A833-FDB15D205D40"@);
        },
        ParamType::MatchToDistrictZipCode(z) => {
            reveal_strlit("MatchToDistrictZipCode");
            assert(wf_name("MatchToDistrictZipCode"@));
            lemma_text_node_wf("MatchToDistrictZipCode"@, z@);
        },
    }
}

/// The fragment read head-first: the first parameter's element, then the
/// rest.
pub proof fn lemma_fragment_head(ps: Seq<ParamType>)
    requires
        ps.len() > 0,
    ensures
        params_fragment(ps) == param_xml(ps.first()) + params_fragment(ps.drop_first()),
    decreases ps.len(),
{
    if ps.len() == 1 {
        assert(ps.drop_last() =~= Seq::<ParamType>::empty());
        assert(params_fragment(Seq::<ParamType>::empty()) =~= Seq::<char>::empty());
        assert(ps.last() == ps.first());
        assert(ps.drop_first() =~= Seq::<ParamType>::empty());
        assert(params_fragment(ps) =~= param_xml(ps.first()) + params_fragment(ps.drop_first()));
    } else {
        let dl = ps.drop_last();
        lemma_fragment_head(dl);
        assert(dl.first() == ps.first());
        assert(ps.drop_first().drop_last() =~= dl.drop_first());
        assert(ps.drop_first().last() == ps.last());
        assert(ps.drop_first().len() > 0);
        assert(params_fragment(ps.drop_first()) == params_fragment(ps.drop_first().drop_last())
            + param_xml(ps.drop_first().last()));
        assert(params_fragment(ps) =~= param_xml(ps.first()) + params_fragment(ps.drop_first()));
    }
}

/// With equal fragments, the first parameters render the same element and
/// the remainders' fragments agree.
#[verifier::rlimit(100)]
proof fn lemma_fragment_step(p1: Seq<ParamType>, p2: Seq<ParamType>)
    requires
        wf_params(p1),
        wf_params(p2),
        p1.len() > 0,
        p2.len() > 0,
        params_fragment(p1) == params_fragment(p2),
    ensures
        leaf_of(p1.first()) == leaf_of(p2.first()),
        params_fragment(p1.drop_first()) == params_fragment(p2.drop_first()),
{
    let s = params_fragment(p1);
    lemma_fragment_head(p1);
    lemma_fragment_head(p2);
    lemma_param_xml_leaf(p1.first());
    lemma_param_xml_leaf(p2.first());
    let l1 = leaf_of(p1.first());
    let l2 = leaf_of(p2.first());
    assert(wf_param(p1.first())) by {
        assert(p1.first() == p1[0]);
    }
    assert(wf_param(p2.first())) by {
        assert(p2.first() == p2[0]);
    }
    lemma_leaf_wf(p1.first());
    lemma_leaf_wf(p2.first());
    let w1 = ser_node(l1);
    let w2 = ser_node(l2);
    let r1 = params_fragment(p1.drop_first());
    let r2 = params_fragment(p2.drop_first());
    assert(s == w1 + r1);
    assert(s == w2 + r2);
    crate::xml::lemma_concat_prefix(s, w1, r1);
    crate::xml::lemma_concat_prefix(s, w2, r2);
    lemma_parse_ser_node(l1, s, 0);
    lemma_parse_ser_node(l2, s, 0);
    assert(spec_parse_node(s, 0) == Some((l1, w1.len() as int)));
    assert(spec_parse_node(s, 0) == Some((l2, w2.len() as int)));
    assert(l1 == l2);
    crate::xml::lemma_concat_cancel(w1, r1, r2);
}

/// The fragment determines the parameters' content: two well-formed
/// sequences with the same fragment render the same element list.
pub proof fn lemma_fragment_injective(p1: Seq<ParamType>, p2: Seq<ParamType>)
    requires
        wf_params(p1),
        wf_params(p2),
        params_fragment(p1) == params_fragment(p2),
    ensures
        leaves_of(p1) == leaves_of(p2),
    decreases p1.len(),
{
    if p1.len() == 0 && p2.len() == 0 {
        assert(leaves_of(p1) =~= leaves_of(p2));
    } else if p1.len() == 0 {
        lemma_fragment_head(p2);
        lemma_param_xml_leaf(p2.first());
        assert(wf_param(p2.first())) by {
            assert(p2.first() == p2[0]);
        }
        lemma_leaf_wf(p2.first());
        crate::xml::lemma_ser_node_head(leaf_of(p2.first()));
        assert(params_fragment(p2).len() > 0);
        assert(params_fragment(p1).len() == 0);
        assert(false);
    } else if p2.len() == 0 {
        lemma_fragment_head(p1);
        lemma_param_xml_leaf(p1.first());
        assert(wf_param(p1.first())) by {
            assert(p1.first() == p1[0]);
        }
        lemma_leaf_wf(p1.first());
        crate::xml::lemma_ser_node_head(leaf_of(p1.first()));
        assert(params_fragment(p1).len() > 0);
        assert(params_fragment(p2).len() == 0);
        assert(false);
    } else {
        lemma_fragment_step(p1, p2);
        assert(wf_params(p1.drop_first())) by {
            assert(forall|i: int| 0 <= i < p1.drop_first().len() ==> p1.drop_first()[i] == p1[i
                + 1]);
        }
        assert(wf_params(p2.drop_first())) by {
            assert(forall|i: int| 0 <= i < p2.drop_first().len() ==> p2.drop_first()[i] == p2[i
                + 1]);
        }
        lemma_fragment_injective(p1.drop_first(), p2.drop_first());
        assert(leaves_of(p1) =~= leaves_of(p2)) by {
            assert(p1.len() == p2.len()) by {
                assert(leaves_of(p1.drop_first()).len() == p1.len() - 1);
                assert(leaves_of(p2.drop_first()).len() == p2.len() - 1);
            }
            assert forall|t: int| 0 <= t < leaves_of(p1).len() implies leaves_of(p1)[t]
                == leaves_of(p2)[t] by {
                if t == 0 {
                    assert(leaves_of(p1)[0] == leaf_of(p1.first()));
                    assert(leaves_of(p2)[0] == leaf_of(p2.first()));
                } else {
                    assert(leaves_of(p1)[t] == leaf_of(p1[t]));
                    assert(leaves_of(p2)[t] == leaf_of(p2[t]));
                    assert(leaves_of(p1.drop_first())[t - 1] == leaf_of(p1.drop_first()[t - 1]));
                    assert(leaves_of(p2.drop_first())[t - 1] == leaf_of(p2.drop_first()[t - 1]));
                    assert(p1.drop_first()[t - 1] == p1[t]);
                    assert(p2.drop_first()[t - 1] == p2[t]);
                }
            }
        }
    }
}

/// Encoding is order-preserving: two well-formed sequences of at least two
/// parameters that hold the same parameter values — the same elements as a
/// multiset — but lay them out in different order encode differently.
pub proof fn lemma_encode_order_sensitive(p1: Seq<ParamType>, p2: Seq<ParamType>)
    requires
        wf_params(p1),
        wf_params(p2),
        leaves_of(p1).to_multiset() == leaves_of(p2).to_multiset(),
        leaves_of(p1) != leaves_of(p2),
        p1.len() >= 2,
    ensures
        parms_xml(p1) != parms_xml(p2),
{
    reveal_strlit("<Parms>");
    reveal_strlit("</Parms>");
    if parms_xml(p1) == parms_xml(p2) {
        let f1 = params_fragment(p1);
        let f2 = params_fragment(p2);
        assert(("<Parms>"@ + f1 + "</Parms>"@).len() == ("<Parms>"@ + f2 + "</Parms>"@).len());
        assert(f1.len() == f2.len());
        assert(f1 =~= f2) by {
            assert forall|t: int| 0 <= t < f1.len() implies f1[t] == f2[t] by {
                assert(("<Parms>"@ + f1 + "</Parms>"@)[7 + t] == f1[t]);
                assert(("<Parms>"@ + f2 + "</Parms>"@)[7 + t] == f2[t]);
            }
        }
        lemma_fragment_injective(p1, p2);
        assert(false);
    }
}

} // verus!
