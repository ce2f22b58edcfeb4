//! Responses that carry a rendered page: the same wire format as any
//! response, with a builder whose default already holds the page.

pub use crate::http::response::ResStatus;
use crate::http::response::{pairs, status_line_of, wire_text, BuilderView, HttpResponse};
use vstd::prelude::*;
use vstd::string::*;

verus! {

/// A finished response that carries a page.
pub struct HtmlResponse {
    pub status_line: String,
    pub headers: Vec<(String, String)>,
    pub html: String,
}

impl HtmlResponse {
    /// The response as it goes out on the wire.
    pub open spec fn wire(&self) -> Seq<char> {
        wire_text(self.status_line@, pairs(self.headers@), self.html@)
    }

    /// Writes the response out: the status line, the headers in the order in
    /// which they were registered, an empty line, and the page.
    pub fn to_string(self) -> (s: String)
        ensures
            s@ == self.wire(),
    {
        let response = HttpResponse {
            status_line: self.status_line,
            headers: self.headers,
            html: self.html,
        };
        response.to_string()
    }
}

/// A page response in the making.
#[derive(Clone)]
pub struct HtmlResponseBuilder {
    status_line: Option<ResStatus>,
    headers: Vec<(String, String)>,
    html: Option<String>,
}

impl HtmlResponseBuilder {
    /// What the builder holds.
    pub closed spec fn view(&self) -> BuilderView {
        BuilderView {
            status: self.status_line,
            headers: pairs(self.headers@),
            html: match self.html {
                Some(h) => Some(h@),
                None => None,
            },
        }
    }

    /// A builder with no status, no header and no page.
    pub fn new() -> (b: Self)
        ensures
            b@ == (BuilderView { status: None, headers: Seq::empty(), html: None }),
    {
        let b = HtmlResponseBuilder { status_line: None, headers: Vec::new(), html: None };
        assert(b@.headers == Seq::<(Seq<char>, Seq<char>)>::empty());
        b
    }

    /// A builder with the status `OK`, no header, and the rendered page `page`.
    pub fn default(page: String) -> (b: Self)
        ensures
            b@ == (BuilderView {
                status: Some(ResStatus::OK),
                headers: Seq::empty(),
                html: Some(page@),
            }),
    {
        let b = HtmlResponseBuilder {
            status_line: Some(ResStatus::OK),
            headers: Vec::new(),
            html: Some(page),
        };
        assert(b@.headers == Seq::<(Seq<char>, Seq<char>)>::empty());
        b
    }

    /// Sets the status, in place of any set before.
    pub fn status_line(self, status: ResStatus) -> (b: Self)
        ensures
            b@ == (BuilderView { status: Some(status), ..self@ }),
    {
        let mut b = self;
        b.status_line = Some(status);
        b
    }

    /// Registers a header, given as its name and its value, after those
    /// registered before.
    pub fn header(self, header: (String, String)) -> (b: Self)
        ensures
            b@ == (BuilderView { headers: self@.headers.push((header.0@, header.1@)), ..self@ }),
    {
        let mut headers = self.headers;
        headers.push(header);
        let b = HtmlResponseBuilder { status_line: self.status_line, headers, html: self.html };
        assert(b@.headers == self@.headers.push((header.0@, header.1@)));
        b
    }

    /// Sets the page, in place of any set before.
    pub fn html(self, html: String) -> (b: Self)
        ensures
            b@ == (BuilderView { html: Some(html@), ..self@ }),
    {
        let mut b = self;
        b.html = Some(html);
        b
    }

    /// Whether a status was set, so that the response can be built.
    pub fn has_status(&self) -> (r: bool)
        ensures
            r == self@.status is Some,
    {
        self.status_line.is_some()
    }

    /// Finishes the response: the status line is the protocol, the code and the
    /// reason phrase; the headers are those registered, in their order; the page
    /// is the one set, or empty.
    pub fn build(self) -> (r: HtmlResponse)
        requires
            self@.status is Some,
        ensures
            r.status_line@ == status_line_of(self@.status.unwrap()),
            pairs(r.headers@) == self@.headers,
            r.html@ == match self@.html {
                Some(h) => h,
                None => Seq::<char>::empty(),
            },
    {
        let status = match self.status_line {
            Some(s) => s,
            None => ResStatus::OK,
        };
        let mut line = "HTTP/1.1 ".to_string();
        let reason = status.to_status_line();
        line.append(reason.as_str());
        let html = match self.html {
            Some(h) => h,
            None => String::new(),
        };
        HtmlResponse { status_line: line, headers: self.headers, html }
    }
}

} // verus!
