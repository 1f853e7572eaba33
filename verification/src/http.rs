//! HTTP access for plugins.
//!
//! Scripts never touch the network themselves. They call host functions that go through the
//! [`HttpClient`] trait.

use vstd::prelude::*;

use crate::text::join;

verus! {


/// The body of a request.
#[derive(Debug, Clone)]
pub enum HttpBody {
    /// No body.
    Empty,
    /// A text.
    Text(String),
    /// A form, as pairs of names and values.
    Form(Vec<(String, String)>),
}

/// A request that a plugin makes.
#[derive(Debug, Clone)]
pub struct HttpRequest {
    /// Method, such as `GET` or `POST`.
    pub method: String,
    /// Target.
    pub url: String,
    /// Headers, as pairs of names and values.
    pub headers: Vec<(String, String)>,
    /// Body.
    pub body: HttpBody,
}

/// What a plugin is answered.
#[derive(Debug, Clone)]
pub struct HttpResponse {
    /// Status code.
    pub status: u16,
    /// Body.
    pub body: String,
}

/// What carries out the requests of plugins.
pub trait HttpClient: Send + Sync {
    /// Carries out a request: the response, or what went wrong.
    fn execute(&self, request: HttpRequest) -> Result<HttpResponse, String>;
}

/// What a list of pairs of strings stands for.
pub open spec fn pair_views(list: Seq<(String, String)>) -> Seq<(Seq<char>, Seq<char>)> {
    list.map_values(|p: (String, String)| (p.0@, p.1@))
}

/// What a [`HttpBody`] stands for.
pub enum BodyView {
    Empty,
    Text(Seq<char>),
    Form(Seq<(Seq<char>, Seq<char>)>),
}

impl View for HttpBody {
    type V = BodyView;

    open spec fn view(&self) -> BodyView {
        match *self {
            HttpBody::Empty => BodyView::Empty,
            HttpBody::Text(text) => BodyView::Text(text@),
            HttpBody::Form(form) => BodyView::Form(pair_views(form@)),
        }
    }
}

/// What a [`HttpRequest`] stands for.
pub struct RequestView {
    pub method: Seq<char>,
    pub url: Seq<char>,
    pub headers: Seq<(Seq<char>, Seq<char>)>,
    pub body: BodyView,
}

impl View for HttpRequest {
    type V = RequestView;

    open spec fn view(&self) -> RequestView {
        RequestView {
            method: self.method@,
            url: self.url@,
            headers: pair_views(self.headers@),
            body: self.body@,
        }
    }
}

/// What is wrong with a text as the name of a method, if anything is.
pub uninterp spec fn method_problem(raw: Seq<char>) -> Option<Seq<char>>;

/// `checked` says what is wrong, if anything is.
pub open spec fn is_checked_method(
    checked: Result<(), String>,
    problem: Option<Seq<char>>,
) -> bool {
    match checked {
        Ok(()) => problem is None,
        Err(e) => problem == Some(e@),
    }
}

/// Trusted: `reqwest::Method::from_bytes` takes the name of a method, among others `GET` and
/// `POST`; its error is handed on as text.
#[verifier::external_body]
fn check_name(raw: &str) -> (checked: Result<(), String>)
    ensures
        is_checked_method(checked, method_problem(raw@)),
        raw@ == "GET"@ || raw@ == "POST"@ ==> checked is Ok,
{
    match reqwest::Method::from_bytes(raw.as_bytes()) {
        Ok(_) => Ok(()),
        Err(e) => Err(e.to_string()),
    }
}

impl HttpRequest {
    /// Checks the method before the request is carried out.
    pub fn check_method(&self) -> (checked: Result<(), String>)
        ensures
            match method_problem(self.method@) {
                None => checked is Ok,
                Some(detail) => checked matches Err(e) && e@ == "invalid HTTP method: "@ + detail,
            },
            self.method@ == "GET"@ || self.method@ == "POST"@ ==> checked is Ok,
    {
        match check_name(self.method.as_str()) {
            Ok(()) => Ok(()),
            Err(e) => Err(join("invalid HTTP method: ", e.as_str())),
        }
    }
}

/// The view of a request holds its method, its target, its headers and its body.
pub proof fn law_view_of_a_request(request: HttpRequest)
    ensures
        request@.method == request.method@,
        request@.url == request.url@,
        request@.headers.len() == request.headers@.len(),
        forall|i: int|
            0 <= i < request.headers@.len() ==> (#[trigger] request@.headers[i]).0
                == request.headers@[i].0@ && request@.headers[i].1 == request.headers@[i].1@,
        match request.body {
            HttpBody::Empty => request@.body is Empty,
            HttpBody::Text(text) => request@.body == BodyView::Text(text@),
            HttpBody::Form(form) => request@.body matches BodyView::Form(fields) && fields.len()
                == form@.len() && forall|i: int|
                0 <= i < form@.len() ==> (#[trigger] fields[i]).0 == form@[i].0@ && fields[i].1
                    == form@[i].1@,
        },
{
}

} // verus!
