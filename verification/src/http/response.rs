//! Responses: the closed set of statuses, the builder that middleware fills in,
//! and the exact text that goes out on the wire.

use vstd::prelude::*;
use vstd::string::*;

verus! {

/// The status of a response.
#[derive(Clone, Copy, Debug, PartialEq, Eq, Structural)]
pub enum ResStatus {
    OK,
    NotFound,
}

impl ResStatus {
    /// The code and reason phrase of the status.
    pub open spec fn line(self) -> Seq<char> {
        match self {
            ResStatus::OK => "200 OK"@,
            ResStatus::NotFound => "404 Not Found"@,
        }
    }

    /// The code and reason phrase, as they stand in a status line.
    pub fn to_status_line(&self) -> (s: String)
        ensures
            s@ == self.line(),
    {
        match self {
            ResStatus::OK => "200 OK".to_string(),
            ResStatus::NotFound => "404 Not Found".to_string(),
        }
    }
}

/// The texts of a list of header pairs.
pub open spec fn pairs(v: Seq<(String, String)>) -> Seq<(Seq<char>, Seq<char>)> {
    Seq::new(v.len(), |i: int| (v[i].0@, v[i].1@))
}

/// The header lines of a response, in order: each is the name, a colon and a
/// space, the value, and a line end.
pub open spec fn header_lines(headers: Seq<(Seq<char>, Seq<char>)>) -> Seq<char>
    decreases headers.len(),
{
    if headers.len() == 0 {
        Seq::empty()
    } else {
        header_lines(headers.drop_last()) + headers.last().0 + ": "@ + headers.last().1 + "\r\n"@
    }
}

/// A response on the wire: the status line, the header lines, an empty line,
/// and the body as it is, with nothing after it.
pub open spec fn wire_text(
    status_line: Seq<char>,
    headers: Seq<(Seq<char>, Seq<char>)>,
    body: Seq<char>,
) -> Seq<char> {
    status_line + "\r\n"@ + header_lines(headers) + "\r\n"@ + body
}

/// The status line of a response with the given status.
pub open spec fn status_line_of(status: ResStatus) -> Seq<char> {
    "HTTP/1.1 "@ + status.line()
}

/// A finished response.
pub struct HttpResponse {
    pub status_line: String,
    pub headers: Vec<(String, String)>,
    pub html: String,
}

impl HttpResponse {
    /// The response as it goes out on the wire.
    pub open spec fn wire(&self) -> Seq<char> {
        wire_text(self.status_line@, pairs(self.headers@), self.html@)
    }

    /// Writes the response out: the headers keep the order in which they were
    /// registered, and none is added.
    pub fn to_string(self) -> (s: String)
        ensures
            s@ == self.wire(),
    {
        let mut result = self.status_line;
        result.append("\r\n");
        let ghost head = result@;
        let mut i: usize = 0;
        while i < self.headers.len()
            invariant
                i <= self.headers@.len(),
                result@ == head + header_lines(pairs(self.headers@).take(i as int)),
            decreases self.headers@.len() - i,
        {
            let ghost before = result@;
            let entry = &self.headers[i];
            result.append(entry.0.as_str());
            result.append(": ");
            result.append(entry.1.as_str());
            result.append("\r\n");
            proof {
                let p = pairs(self.headers@);
                assert(p.take(i + 1).drop_last() == p.take(i as int));
                assert(p.take(i + 1).last() == p[i as int]);
                assert(result@ == head + (header_lines(p.take(i as int)) + p[i as int].0 + ": "@
                    + p[i as int].1 + "\r\n"@));
            }
            i += 1;
        }
        proof {
            assert(pairs(self.headers@).take(i as int) == pairs(self.headers@));
        }
        result.append("\r\n");
        result.append(self.html.as_str());
        result
    }
}

/// What a builder holds: the status, if one was set; the headers in the order
/// in which they were registered; the body, if one was set.
pub struct BuilderView {
    pub status: Option<ResStatus>,
    pub headers: Seq<(Seq<char>, Seq<char>)>,
    pub html: Option<Seq<char>>,
}

/// A response in the making.
#[derive(Clone)]
pub struct HttpResponseBuilder {
    status: Option<ResStatus>,
    headers: Vec<(String, String)>,
    html: Option<String>,
}

impl Default for HttpResponseBuilder {
    /// A builder with the status `OK`, no header and no body.
    fn default() -> (b: Self)
        ensures
            b@ == (BuilderView { status: Some(ResStatus::OK), headers: Seq::empty(), html: None }),
    {
        let b = HttpResponseBuilder { status: Some(ResStatus::OK), headers: Vec::new(), html: None };
        assert(b@.headers == Seq::<(Seq<char>, Seq<char>)>::empty());
        b
    }
}

impl HttpResponseBuilder {
    /// What the builder holds.
    pub closed spec fn view(&self) -> BuilderView {
        BuilderView {
            status: self.status,
            headers: pairs(self.headers@),
            html: match self.html {
                Some(h) => Some(h@),
                None => None,
            },
        }
    }

    /// A builder with no status, no header and no body.
    pub fn new() -> (b: Self)
        ensures
            b@ == (BuilderView { status: None, headers: Seq::empty(), html: None }),
    {
        let b = HttpResponseBuilder { status: None, headers: Vec::new(), html: None };
        assert(b@.headers == Seq::<(Seq<char>, Seq<char>)>::empty());
        b
    }

    /// Sets the status, in place of any set before.
    pub fn status(self, status: ResStatus) -> (b: Self)
        ensures
            b@ == (BuilderView { status: Some(status), ..self@ }),
    {
        let mut b = self;
        b.status = Some(status);
        b
    }

    /// Registers a header after those registered before. A name may stand more
    /// than once.
    pub fn header(self, key: String, value: String) -> (b: Self)
        ensures
            b@ == (BuilderView { headers: self@.headers.push((key@, value@)), ..self@ }),
    {
        let mut headers = self.headers;
        headers.push((key, value));
        let b = HttpResponseBuilder { status: self.status, headers, html: self.html };
        assert(b@.headers == self@.headers.push((key@, value@)));
        b
    }

    /// Sets the body, in place of any set before.
    pub fn html(self, html: String) -> (b: Self)
        ensures
            b@ == (BuilderView { html: Some(html@), ..self@ }),
    {
        let mut b = self;
        b.html = Some(html);
        b
    }

    /// Whether a status was set, so that the response can be built.
    pub fn has_status(&self) -> (r: bool)
        ensures
            r == self@.status is Some,
    {
        self.status.is_some()
    }

    /// Finishes the response: the status line is the protocol, the code and the
    /// reason phrase; the headers are those registered, in their order; the body
    /// is the one set, or empty.
    pub fn build(self) -> (r: HttpResponse)
        requires
            self@.status is Some,
        ensures
            r.status_line@ == status_line_of(self@.status.unwrap()),
            pairs(r.headers@) == self@.headers,
            r.html@ == match self@.html {
                Some(h) => h,
                None => Seq::<char>::empty(),
            },
    {
        let status = match self.status {
            Some(s) => s,
            None => ResStatus::OK,
        };
        let mut line = "HTTP/1.1 ".to_string();
        let reason = status.to_status_line();
        line.append(reason.as_str());
        let html = match self.html {
            Some(h) => h,
            None => String::new(),
        };
        HttpResponse { status_line: line, headers: self.headers, html }
    }
}

} // verus!
