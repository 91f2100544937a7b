//! From a test case to the request that is sent for it, and from the
//! response to the output that is kept.

use vstd::prelude::*;
use vstd::string::*;
use vstd::utf8::encode_utf8;
use crate::http::{
    accepts_header_name, accepts_header_value, accepts_url, url_parses, valid_header_name,
    valid_header_value,
};
use crate::json::{Json, JsonView};
use crate::redact::{redacted, skip_fields, RedactError};
use crate::snapshot::{clone_optional, optional_view, Output, OutputView};
use crate::strmap::{Pair, StringMap};
use crate::suite::{TestCase, TestCaseView};
use crate::text::same_text;

verus! {

/// The HTTP verbs that a test case may name.
#[derive(Copy, Clone, Debug, PartialEq, Eq, Structural)]
pub enum Method {
    Get,
    Post,
    Put,
    Patch,
    Delete,
    Head,
    Trace,
}

/// Why a run was given up. `test` is the place of the test case in the
/// suite, `header` that of a header among the test case's headers.
#[derive(Copy, Clone, Debug, PartialEq, Eq, Structural)]
pub enum RunError {
    /// The method is none of the seven verbs.
    InvalidMethod { test: usize },
    /// Endpoint and route together are no URL.
    InvalidUrl { test: usize },
    /// A header's name is no HTTP token.
    InvalidHeaderName { test: usize, header: usize },
    /// A header's value holds a control byte.
    InvalidHeaderValue { test: usize, header: usize },
    /// The request could not be sent, or no response came.
    Transport { test: usize },
    /// The response's status is not the one that the test case expects.
    StatusMismatch { test: usize, expected: u16, actual: u16 },
    /// A field to redact does not fit the response body.
    Redaction { test: usize, error: RedactError },
}

/// A request that is ready to be sent.
#[derive(Debug)]
pub struct Request {
    /// The name of the test case that asks for it.
    pub name: String,
    pub method: Method,
    /// Endpoint and route, joined.
    pub url: String,
    pub payload: Option<Json>,
    pub headers: Option<StringMap>,
}

/// The mathematical value of a [`Request`].
pub struct RequestView {
    pub name: Seq<char>,
    pub method: Method,
    pub url: Seq<char>,
    pub payload: Option<JsonView>,
    pub headers: Option<Seq<Pair>>,
}

impl View for Request {
    type V = RequestView;

    open spec fn view(&self) -> RequestView {
        RequestView {
            name: self.name@,
            method: self.method,
            url: self.url@,
            payload: optional_view(self.payload),
            headers: match self.headers {
                Some(h) => Some(h.pairs()),
                None => None,
            },
        }
    }
}

/// The verb that a text names: one of the seven, in capitals.
pub open spec fn method_of(text: Seq<char>) -> Option<Method> {
    if text == "GET"@ {
        Some(Method::Get)
    } else if text == "POST"@ {
        Some(Method::Post)
    } else if text == "PUT"@ {
        Some(Method::Put)
    } else if text == "PATCH"@ {
        Some(Method::Patch)
    } else if text == "DELETE"@ {
        Some(Method::Delete)
    } else if text == "HEAD"@ {
        Some(Method::Head)
    } else if text == "TRACE"@ {
        Some(Method::Trace)
    } else {
        None
    }
}

/// The name of a verb.
pub open spec fn method_name(method: Method) -> Seq<char> {
    match method {
        Method::Get => "GET"@,
        Method::Post => "POST"@,
        Method::Put => "PUT"@,
        Method::Patch => "PATCH"@,
        Method::Delete => "DELETE"@,
        Method::Head => "HEAD"@,
        Method::Trace => "TRACE"@,
    }
}

/// What is wrong with one header, if anything: its name is looked at first.
pub open spec fn pair_fault(pair: Pair, test: usize, header: usize) -> Option<RunError> {
    if !valid_header_name(encode_utf8(pair.key)) {
        Some(RunError::InvalidHeaderName { test, header })
    } else if !valid_header_value(encode_utf8(pair.value)) {
        Some(RunError::InvalidHeaderValue { test, header })
    } else {
        None
    }
}

/// The fault of the first of the first `n` headers that has one.
pub open spec fn headers_fault(headers: Seq<Pair>, test: usize, n: nat) -> Option<RunError>
    decreases n,
{
    if n == 0 {
        None
    } else {
        match headers_fault(headers, test, (n - 1) as nat) {
            Some(fault) => Some(fault),
            None => pair_fault(headers[n - 1], test, (n - 1) as usize),
        }
    }
}

/// A fault that the first `i` headers have is the fault of any more of them.
pub proof fn lemma_fault_stays(headers: Seq<Pair>, test: usize, i: nat, n: nat)
    requires
        i <= n,
        headers_fault(headers, test, i) is Some,
    ensures
        headers_fault(headers, test, n) == headers_fault(headers, test, i),
    decreases n,
{
    if i < n {
        lemma_fault_stays(headers, test, i, (n - 1) as nat);
    }
}

/// The fault of a test case's headers, if they have one.
pub open spec fn case_headers_fault(headers: Option<Seq<Pair>>, test: usize) -> Option<RunError> {
    match headers {
        Some(list) => headers_fault(list, test, list.len()),
        None => None,
    }
}

/// The request for the test case at place `test` of a suite with this
/// endpoint, `url_ok` telling whether endpoint and route together are a URL;
/// or the first thing that is wrong with the test case: its method, then the
/// URL, then its headers in their order.
pub open spec fn planned(case: TestCaseView, endpoint: Seq<char>, test: usize, url_ok: bool) -> Result<
    RequestView,
    RunError,
> {
    match method_of(case.method) {
        None => Err(RunError::InvalidMethod { test }),
        Some(method) => {
            if !url_ok {
                Err(RunError::InvalidUrl { test })
            } else {
                match case_headers_fault(case.headers, test) {
                    Some(fault) => Err(fault),
                    None => Ok(
                        RequestView {
                            name: case.name,
                            method,
                            url: endpoint + case.route,
                            payload: case.payload,
                            headers: case.headers,
                        },
                    ),
                }
            }
        },
    }
}

/// The fields that a test case asks to redact: none where it names no list.
pub open spec fn fields_of(case: TestCaseView) -> Seq<Seq<char>> {
    match case.skip_payload_fields {
        Some(list) => list,
        None => Seq::empty(),
    }
}

/// The output of the test case at place `test` for a response with this
/// status and body, the request having gone to `url`; or why the run is
/// given up: the status is not the expected one, or, the status being right,
/// a field to redact does not fit the body.
pub open spec fn recorded(
    case: TestCaseView,
    test: usize,
    url: Seq<char>,
    status: u16,
    body: Option<JsonView>,
) -> Result<OutputView, RunError> {
    if case.expected_status_code is Some && case.expected_status_code->0 != status {
        Err(
            RunError::StatusMismatch {
                test,
                expected: case.expected_status_code->0,
                actual: status,
            },
        )
    } else {
        let kept = OutputView {
            name: case.name,
            method_str: case.method,
            endpoint: url,
            status_code: status,
            request_payload: case.payload,
            response_body: None,
        };
        match body {
            None => Ok(kept),
            Some(value) => match redacted(value, fields_of(case)).1 {
                None => Ok(
                    OutputView {
                        response_body: Some(redacted(value, fields_of(case)).0),
                        ..kept
                    },
                ),
                Some(error) => Err(RunError::Redaction { test, error }),
            },
        }
    }
}

/// The mathematical value of a request or the error in its place.
pub open spec fn plan_view(r: Result<Request, RunError>) -> Result<RequestView, RunError> {
    match r {
        Ok(request) => Ok(request@),
        Err(e) => Err(e),
    }
}

/// The mathematical value of an output or the error in its place.
pub open spec fn record_view(r: Result<Output, RunError>) -> Result<OutputView, RunError> {
    match r {
        Ok(output) => Ok(output@),
        Err(e) => Err(e),
    }
}

impl Method {
    /// The name of the verb.
    pub fn name(&self) -> (s: String)
        ensures
            s@ == method_name(*self),
    {
        match self {
            Method::Get => "GET".to_owned(),
            Method::Post => "POST".to_owned(),
            Method::Put => "PUT".to_owned(),
            Method::Patch => "PATCH".to_owned(),
            Method::Delete => "DELETE".to_owned(),
            Method::Head => "HEAD".to_owned(),
            Method::Trace => "TRACE".to_owned(),
        }
    }
}

/// Reads a verb: one of the seven, in capitals.
pub fn parse_method(text: &str) -> (r: Option<Method>)
    ensures
        r == method_of(text@),
{
    if same_text(text, "GET") {
        Some(Method::Get)
    } else if same_text(text, "POST") {
        Some(Method::Post)
    } else if same_text(text, "PUT") {
        Some(Method::Put)
    } else if same_text(text, "PATCH") {
        Some(Method::Patch)
    } else if same_text(text, "DELETE") {
        Some(Method::Delete)
    } else if same_text(text, "HEAD") {
        Some(Method::Head)
    } else if same_text(text, "TRACE") {
        Some(Method::Trace)
    } else {
        None
    }
}

/// Looks for the first header that the client would refuse.
pub fn check_headers(headers: &StringMap, test: usize) -> (r: Option<RunError>)
    ensures
        r == headers_fault(headers.pairs(), test, headers.pairs().len()),
{
    let n = headers.len();
    let mut i: usize = 0;
    while i < n
        invariant
            i <= n,
            n == headers.pairs().len(),
            headers_fault(headers.pairs(), test, i as nat) is None,
        decreases n - i,
    {
        if !accepts_header_name(headers.key_at(i).as_str().as_bytes()) {
            proof {
                lemma_fault_stays(headers.pairs(), test, (i + 1) as nat, n as nat);
            }
            return Some(RunError::InvalidHeaderName { test, header: i });
        }
        if !accepts_header_value(headers.value_at(i).as_str().as_bytes()) {
            proof {
                lemma_fault_stays(headers.pairs(), test, (i + 1) as nat, n as nat);
            }
            return Some(RunError::InvalidHeaderValue { test, header: i });
        }
        i = i + 1;
    }
    None
}

/// The URL of a test case: the endpoint with the route appended as it is.
pub fn join_url(endpoint: &str, route: &str) -> (url: String)
    ensures
        url@ == endpoint@ + route@,
{
    let mut url = endpoint.to_owned();
    url.append(route);
    url
}

/// Makes the request for a test case, given whether its URL is one.
pub fn plan_with(case: &TestCase, endpoint: &str, test: usize, url_ok: bool) -> (r: Result<
    Request,
    RunError,
>)
    ensures
        plan_view(r) == planned(case@, endpoint@, test, url_ok),
{
    let method = match parse_method(case.method.as_str()) {
        Some(method) => method,
        None => {
            return Err(RunError::InvalidMethod { test });
        },
    };
    if !url_ok {
        return Err(RunError::InvalidUrl { test });
    }
    let headers = match &case.headers {
        Some(list) => {
            match check_headers(list, test) {
                Some(fault) => {
                    return Err(fault);
                },
                None => {},
            }
            Some(list.clone())
        },
        None => None,
    };
    Ok(
        Request {
            name: case.name.clone(),
            method,
            url: join_url(endpoint, case.route.as_str()),
            payload: clone_optional(&case.payload),
            headers,
        },
    )
}

/// Makes the request for the test case at place `test` of a suite with this
/// endpoint.
pub fn plan(case: &TestCase, endpoint: &str, test: usize) -> (r: Result<Request, RunError>)
    ensures
        plan_view(r) == planned(case@, endpoint@, test, url_parses(endpoint@ + case.route@)),
{
    let url = join_url(endpoint, case.route.as_str());
    let url_ok = accepts_url(url.as_str());
    plan_with(case, endpoint, test, url_ok)
}

/// Makes the output of a test case from its response: holds the status
/// against the expected one, then redacts the body.
pub fn record(case: &TestCase, test: usize, url: &str, status: u16, body: Option<Json>) -> (r:
    Result<Output, RunError>)
    ensures
        record_view(r) == recorded(case@, test, url@, status, optional_view(body)),
{
    match case.expected_status_code {
        Some(expected) => {
            if expected != status {
                return Err(RunError::StatusMismatch { test, expected, actual: status });
            }
        },
        None => {},
    }
    let response_body = match body {
        Some(value) => {
            let mut value = value;
            match skip_fields(&mut value, &case.skip_payload_fields) {
                Ok(()) => Some(value),
                Err(error) => {
                    return Err(RunError::Redaction { test, error });
                },
            }
        },
        None => None,
    };
    Ok(
        Output {
            name: case.name.clone(),
            method_str: case.method.clone(),
            endpoint: url.to_owned(),
            status_code: status,
            request_payload: clone_optional(&case.payload),
            response_body,
        },
    )
}

} // verus!
