//! The test suite: one endpoint and an ordered list of test cases.

use vstd::prelude::*;
use vstd::string::*;
use crate::interpolate::{interpolate, interpolated};
use crate::json::{lemma_object_view, members_view, Json, JsonView, Member, MemberView};
use crate::strmap::{Pair, StringMap};
use crate::text::texts;

verus! {

/// One request of a suite and what is expected of its response.
#[derive(Debug)]
pub struct TestCase {
    /// Identifies the test case in the suite and its output in a snapshot.
    pub name: String,
    /// Appended as it is to the suite's endpoint.
    pub route: String,
    /// The HTTP verb, in capitals.
    pub method: String,
    /// The request body, if any.
    pub payload: Option<Json>,
    /// The request headers, if any.
    pub headers: Option<StringMap>,
    /// The status that the response must have, if any is asked for.
    pub expected_status_code: Option<u16>,
    /// Dotted paths of the fields to redact in the response body.
    pub skip_payload_fields: Option<Vec<String>>,
}

/// A suite of test cases against one endpoint.
#[derive(Debug)]
pub struct Rigor {
    /// The test cases, in the order in which they run.
    pub tests: Vec<TestCase>,
    /// The base URL of every request.
    pub endpoint: String,
    /// Whether placeholders are replaced from the environment.
    pub use_env: bool,
}

/// The mathematical value of a [`TestCase`].
pub struct TestCaseView {
    pub name: Seq<char>,
    pub route: Seq<char>,
    pub method: Seq<char>,
    pub payload: Option<JsonView>,
    pub headers: Option<Seq<Pair>>,
    pub expected_status_code: Option<u16>,
    pub skip_payload_fields: Option<Seq<Seq<char>>>,
}

/// The mathematical value of a [`Rigor`].
pub struct RigorView {
    pub tests: Seq<TestCaseView>,
    pub endpoint: Seq<char>,
    pub use_env: bool,
}

impl View for TestCase {
    type V = TestCaseView;

    open spec fn view(&self) -> TestCaseView {
        TestCaseView {
            name: self.name@,
            route: self.route@,
            method: self.method@,
            payload: match self.payload {
                Some(p) => Some(p@),
                None => None,
            },
            headers: match self.headers {
                Some(h) => Some(h.pairs()),
                None => None,
            },
            expected_status_code: self.expected_status_code,
            skip_payload_fields: match self.skip_payload_fields {
                Some(list) => Some(texts(list@)),
                None => None,
            },
        }
    }
}

/// The views of a list of test cases, one by one.
pub open spec fn cases_view(tests: Seq<TestCase>) -> Seq<TestCaseView> {
    Seq::new(tests.len(), |i: int| tests[i]@)
}

impl View for Rigor {
    type V = RigorView;

    open spec fn view(&self) -> RigorView {
        RigorView {
            tests: cases_view(self.tests@),
            endpoint: self.endpoint@,
            use_env: self.use_env,
        }
    }
}

/// The headers with the placeholders of every value replaced; the names stay.
pub open spec fn resolved_headers(headers: Seq<Pair>, env: Map<Seq<char>, Seq<char>>) -> Seq<Pair> {
    Seq::new(
        headers.len(),
        |i: int| Pair { key: headers[i].key, value: interpolated(headers[i].value, env) },
    )
}

/// The test case with the placeholders of its route and of its header values
/// replaced; all else stays, the payload too.
pub open spec fn resolved_case(t: TestCaseView, env: Map<Seq<char>, Seq<char>>) -> TestCaseView {
    TestCaseView {
        route: interpolated(t.route, env),
        headers: match t.headers {
            Some(h) => Some(resolved_headers(h, env)),
            None => None,
        },
        ..t
    }
}

/// The suite as it runs: with its placeholders replaced where it asks for
/// that, as it was declared where it does not.
pub open spec fn resolved(suite: RigorView, env: Map<Seq<char>, Seq<char>>) -> RigorView {
    if suite.use_env {
        RigorView {
            tests: Seq::new(suite.tests.len(), |i: int| resolved_case(suite.tests[i], env)),
            endpoint: interpolated(suite.endpoint, env),
            use_env: true,
        }
    } else {
        suite
    }
}

/// The first test case of the suite that a new file starts with.
pub open spec fn sample_get() -> TestCaseView {
    TestCaseView {
        name: "greet-w/o-payload"@,
        route: "/api/greet"@,
        method: "GET"@,
        payload: None,
        headers: None,
        expected_status_code: None,
        skip_payload_fields: Some(seq!["ip"@]),
    }
}

/// The second test case of the suite that a new file starts with.
pub open spec fn sample_post() -> TestCaseView {
    TestCaseView {
        name: "greet-with-payload"@,
        route: "/api/greet"@,
        method: "POST"@,
        payload: Some(
            JsonView::Object(
                seq![
                    MemberView { key: "message"@, value: JsonView::String("hello world!"@) },
                ],
            ),
        ),
        headers: Some(seq![Pair { key: "Content-Type"@, value: "application/json"@ }]),
        expected_status_code: Some(200u16),
        skip_payload_fields: Some(seq!["ip"@]),
    }
}

/// The suite that a new file starts with: two requests to a greeting
/// service, against the endpoint that the environment names.
pub open spec fn sample_suite() -> RigorView {
    RigorView {
        tests: seq![sample_get(), sample_post()],
        endpoint: "${RIGOR_ENDPOINT}"@,
        use_env: true,
    }
}

/// Replaces the placeholders of every header value.
pub fn resolve_headers(headers: &mut StringMap, env: &StringMap)
    ensures
        final(headers).pairs() == resolved_headers(old(headers).pairs(), env@),
        old(headers).wf() ==> final(headers).wf(),
{
    let ghost before = headers.pairs();
    let n = headers.len();
    let mut i: usize = 0;
    while i < n
        invariant
            i <= n,
            n == before.len(),
            headers.pairs().len() == n,
            forall|j: int| 0 <= j < i ==> headers.pairs()[j] == resolved_headers(before, env@)[j],
            forall|j: int| i <= j < n ==> headers.pairs()[j] == before[j],
            old(headers).wf() ==> headers.wf(),
            before == old(headers).pairs(),
        decreases n - i,
    {
        let value = interpolate(headers.value_at(i).as_str(), env);
        headers.set_value_at(i, value);
        i = i + 1;
    }
    assert(headers.pairs() =~= resolved_headers(before, env@));
}

impl TestCase {
    /// Replaces the placeholders of the route and of the header values.
    pub fn resolve(&mut self, env: &StringMap)
        ensures
            final(self)@ == resolved_case(old(self)@, env@),
    {
        Rigor::replace_with_env(&mut self.route, env);
        match &mut self.headers {
            Some(headers) => {
                resolve_headers(headers, env);
            },
            None => {},
        }
    }
}

impl Rigor {
    /// Replaces the placeholders of `src` from `env`.
    pub fn replace_with_env(src: &mut String, env: &StringMap)
        ensures
            final(src)@ == interpolated(old(src)@, env@),
    {
        let replaced = interpolate(src.as_str(), env);
        *src = replaced;
    }

    /// The suite that a new file starts with.
    pub fn init_rigor() -> (suite: Rigor)
        ensures
            suite@ == sample_suite(),
    {
        let mut fields: Vec<String> = Vec::new();
        fields.push("ip".to_owned());
        assert(texts(fields@) =~= seq!["ip"@]);
        let get = TestCase {
            name: "greet-w/o-payload".to_owned(),
            route: "/api/greet".to_owned(),
            method: "GET".to_owned(),
            payload: None,
            headers: None,
            expected_status_code: None,
            skip_payload_fields: Some(fields),
        };
        let mut members: Vec<Member> = Vec::new();
        members.push(
            Member { key: "message".to_owned(), value: Json::String("hello world!".to_owned()) },
        );
        let payload = Json::Object(members);
        proof {
            lemma_object_view(members);
            assert(members_view(members@) =~= seq![
                MemberView { key: "message"@, value: JsonView::String("hello world!"@) },
            ]);
        }
        let mut headers = StringMap::new();
        headers.insert("Content-Type".to_owned(), "application/json".to_owned());
        assert(headers.pairs() =~= seq![
            Pair { key: "Content-Type"@, value: "application/json"@ },
        ]);
        let mut fields: Vec<String> = Vec::new();
        fields.push("ip".to_owned());
        assert(texts(fields@) =~= seq!["ip"@]);
        let post = TestCase {
            name: "greet-with-payload".to_owned(),
            route: "/api/greet".to_owned(),
            method: "POST".to_owned(),
            payload: Some(payload),
            headers: Some(headers),
            expected_status_code: Some(200),
            skip_payload_fields: Some(fields),
        };
        let mut tests: Vec<TestCase> = Vec::new();
        tests.push(get);
        tests.push(post);
        assert(cases_view(tests@) =~= seq![sample_get(), sample_post()]);
        Rigor { tests, endpoint: "${RIGOR_ENDPOINT}".to_owned(), use_env: true }
    }

    /// The suite that a new file starts with, made ready to run from `env`,
    /// with `case` added behind its test cases as it is.
    pub fn with_added(env: &StringMap, case: TestCase) -> (suite: Rigor)
        ensures
            suite@ == (RigorView {
                tests: resolved(sample_suite(), env@).tests.push(case@),
                ..resolved(sample_suite(), env@)
            }),
    {
        let mut suite = Rigor::init_rigor();
        suite.ensure_env(env);
        let ghost before = cases_view(suite.tests@);
        suite.tests.push(case);
        assert(cases_view(suite.tests@) =~= before.push(case@));
        suite
    }

    /// Makes the suite ready to run: where it asks for it, the placeholders
    /// of the endpoint, of every route and of every header value are replaced
    /// from `env`; else nothing is touched.
    pub fn ensure_env(&mut self, env: &StringMap)
        ensures
            final(self)@ == resolved(old(self)@, env@),
            !old(self).use_env ==> *final(self) == *old(self),
    {
        if self.use_env {
            Rigor::replace_with_env(&mut self.endpoint, env);
            let ghost before = cases_view(self.tests@);
            let n = self.tests.len();
            let mut i: usize = 0;
            while i < n
                invariant
                    i <= n,
                    n == self.tests.len(),
                    n == before.len(),
                    self.use_env,
                    self.endpoint@ == interpolated(old(self).endpoint@, env@),
                    before == cases_view(old(self).tests@),
                    forall|j: int| 0 <= j < i ==> self.tests@[j]@ == resolved_case(before[j], env@),
                    forall|j: int| i <= j < n ==> self.tests@[j]@ == before[j],
                decreases n - i,
            {
                self.tests[i].resolve(env);
                i = i + 1;
            }
            assert(self@.tests =~= resolved(old(self)@, env@).tests);
        }
    }
}

} // verus!
