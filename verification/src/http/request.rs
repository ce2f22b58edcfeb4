//! Requests: the closed set of methods, the request as it was read, and the
//! builder that makes one by hand.

use crate::http::wire::{body_bytes, body_len, parse_request, read_headers, read_request_line};
use crate::text::{lossy_text, same_text, texts};
use crate::text_map::TextMap;
use vstd::prelude::*;
use vstd::slice::slice_subrange;
use vstd::string::*;
use vstd::utf8::{decode_utf8, valid_utf8};

verus! {

/// The method of a request.
#[derive(Clone, Copy, Debug, PartialEq, Eq, Hash, Structural)]
pub enum Method {
    GET,
    POST,
    PUT,
    DELETE,
}

impl Method {
    /// The token that names the method on the wire.
    pub open spec fn name(self) -> Seq<char> {
        match self {
            Method::GET => "GET"@,
            Method::POST => "POST"@,
            Method::PUT => "PUT"@,
            Method::DELETE => "DELETE"@,
        }
    }

    /// The method that `token` names, letter for letter and in upper case.
    pub open spec fn named(token: Seq<char>) -> Option<Method> {
        if token == "GET"@ {
            Some(Method::GET)
        } else if token == "POST"@ {
            Some(Method::POST)
        } else if token == "PUT"@ {
            Some(Method::PUT)
        } else if token == "DELETE"@ {
            Some(Method::DELETE)
        } else {
            None
        }
    }

    /// The token that names the method.
    pub fn to_string(&self) -> (s: String)
        ensures
            s@ == self.name(),
    {
        match self {
            Method::GET => "GET".to_string(),
            Method::POST => "POST".to_string(),
            Method::PUT => "PUT".to_string(),
            Method::DELETE => "DELETE".to_string(),
        }
    }

    /// The method that `method` names, if it names one.
    pub fn from_string(method: &str) -> (r: Option<Self>)
        ensures
            r == Method::named(method@),
    {
        if same_text(method, "GET") {
            Some(Method::GET)
        } else if same_text(method, "POST") {
            Some(Method::POST)
        } else if same_text(method, "PUT") {
            Some(Method::PUT)
        } else if same_text(method, "DELETE") {
            Some(Method::DELETE)
        } else {
            None
        }
    }
}

/// Every method is named by its own token, and by no other method's.
pub proof fn lemma_method_round_trip(m: Method)
    ensures
        Method::named(m.name()) == Some(m),
{
    reveal_strlit("GET");
    reveal_strlit("POST");
    reveal_strlit("PUT");
    reveal_strlit("DELETE");
    assert("GET"@.len() == 3 && "POST"@.len() == 4 && "PUT"@.len() == 3 && "DELETE"@.len() == 6);
    assert("GET"@[0] == 'G' && "PUT"@[0] == 'P');
}

/// The address of the peer at the other end of a connection.
#[derive(Clone, Copy, Debug, PartialEq, Eq)]
pub enum PeerAddr {
    V4 { octets: [u8; 4], port: u16 },
    V6 { segments: [u16; 8], port: u16 },
}

/// A request as it was read off a connection.
#[derive(Clone, Debug)]
pub struct HttpRequest {
    pub ip: Option<PeerAddr>,
    pub method: Method,
    pub route: String,
    pub http_version: String,
    pub headers: TextMap<String>,
    pub body: Option<String>,
}

/// What a request holds, as text.
pub struct RequestView {
    pub ip: Option<PeerAddr>,
    pub method: Method,
    pub route: Seq<char>,
    pub http_version: Seq<char>,
    pub headers: Map<Seq<char>, Seq<char>>,
    pub body: Option<Seq<char>>,
}

/// The text of an optional string.
pub open spec fn text_opt(s: Option<String>) -> Option<Seq<char>> {
    match s {
        Some(t) => Some(t@),
        None => None,
    }
}

/// The texts that a map of strings holds.
pub open spec fn header_texts(m: Map<Seq<char>, String>) -> Map<Seq<char>, Seq<char>> {
    m.map_values(|v: String| v@)
}

impl HttpRequest {
    /// What the request holds.
    pub open spec fn view(&self) -> RequestView {
        RequestView {
            ip: self.ip,
            method: self.method,
            route: self.route@,
            http_version: self.http_version@,
            headers: header_texts(self.headers@),
            body: text_opt(self.body),
        }
    }

    /// Puts a request together from its parts as they were read: `None` where
    /// `method` names no method.
    pub fn with_parts(
        ip: Option<PeerAddr>,
        method: &str,
        route: String,
        http_version: String,
        headers: TextMap<String>,
        body: Option<String>,
    ) -> (r: Option<Self>)
        ensures
            r is Some <==> Method::named(method@) is Some,
            r matches Some(req) ==> req@ == (RequestView {
                ip,
                method: Method::named(method@).unwrap(),
                route: route@,
                http_version: http_version@,
                headers: header_texts(headers@),
                body: text_opt(body),
            }),
    {
        match Method::from_string(method) {
            Some(m) => Some(HttpRequest { ip, method: m, route, http_version, headers, body }),
            None => None,
        }
    }

    /// Reads a request from the bytes of a connection, whose peer is at `ip`.
    /// The body is there exactly where a `Content-Length` header is, and is then
    /// as many bytes as it says, read as UTF-8 with replacements: where the
    /// bytes are UTF-8, it is the text that they encode.
    pub fn from_stream(stream: &[u8], ip: Option<PeerAddr>) -> (r: Option<Self>)
        ensures
            r is Some <==> parse_request(stream@, ip) is Some,
            r matches Some(req) ==> Some(req@) == parse_request(stream@, ip),
            r matches Some(req) ==> (body_bytes(stream@) matches Some(bytes) ==> valid_utf8(bytes)
                ==> req@.body == Some(decode_utf8(bytes))),
    {
        let (tokens, n) = match read_request_line(stream) {
            Some(line) => line,
            None => {
                return None;
            },
        };
        if tokens.len() < 3 {
            assert(texts(tokens@).len() == tokens@.len());
            return None;
        }
        assert(texts(tokens@).len() == tokens@.len());
        assert(texts(tokens@)[0] == tokens@[0]@);
        assert(texts(tokens@)[1] == tokens@[1]@);
        assert(texts(tokens@)[2] == tokens@[2]@);
        let after = slice_subrange(stream, n, stream.len());
        assert(after@ == stream@.skip(n as int));
        let (headers, at) = match read_headers(after) {
            Some(h) => h,
            None => {
                return None;
            },
        };
        let rest = slice_subrange(after, at, after.len());
        assert(rest@ == stream@.skip(n + at));
        let body = match body_len(&headers, rest.len()) {
            None => {
                return None;
            },
            Some(None) => None,
            Some(Some(k)) => {
                let bytes = slice_subrange(rest, 0, k);
                assert(bytes@ == rest@.take(k as int));
                Some(lossy_text(bytes))
            },
        };
        let route = tokens[1].clone();
        let http_version = tokens[2].clone();
        HttpRequest::with_parts(ip, tokens[0].as_str(), route, http_version, headers, body)
    }
}

/// The header lines of a request as it is written out, joined by line ends:
/// each is the name, a colon and a space, and the value.
pub open spec fn header_block(entries: Seq<(Seq<char>, String)>) -> Seq<char>
    decreases entries.len(),
{
    if entries.len() == 0 {
        Seq::empty()
    } else if entries.len() == 1 {
        entries[0].0 + ": "@ + entries[0].1@
    } else {
        header_block(entries.drop_last()) + "\r\n"@ + entries.last().0 + ": "@ + entries.last().1@
    }
}

impl HttpRequest {
    /// The request as text: the request line, the headers in the order in which
    /// the map hands them out, an empty line, and the body if there is one.
    pub open spec fn text(&self) -> Seq<char> {
        self.method.name() + " "@ + self.route@ + " "@ + self.http_version@ + "\r\n"@
            + header_block(self.headers.entries()) + "\r\n\r\n"@ + match self.body {
            Some(b) => b@,
            None => Seq::<char>::empty(),
        }
    }

    /// Writes the request out as text.
    pub fn to_string(&self) -> (s: String)
        ensures
            s@ == self.text(),
    {
        let mut out = self.method.to_string();
        out.append(" ");
        out.append(self.route.as_str());
        out.append(" ");
        out.append(self.http_version.as_str());
        out.append("\r\n");
        let ghost start = out@;
        let ghost entries = self.headers.entries();
        let n = self.headers.len();
        let mut i: usize = 0;
        while i < n
            invariant
                i <= n,
                n == entries.len(),
                entries == self.headers.entries(),
                out@ == start + header_block(entries.take(i as int)),
            decreases n - i,
        {
            match self.headers.entry(i) {
                Some((k, v)) => {
                    if i > 0 {
                        out.append("\r\n");
                    }
                    out.append(k.as_str());
                    out.append(": ");
                    out.append(v.as_str());
                    proof {
                        let e = entries.take(i + 1);
                        assert(e.drop_last() == entries.take(i as int));
                        assert(e.last() == entries[i as int]);
                        assert(e[0] == entries[0]);
                        if i == 0 {
                            assert(out@ == start + (entries[0].0 + ": "@ + entries[0].1@));
                        } else {
                            assert(out@ == start + (header_block(entries.take(i as int)) + "\r\n"@
                                + entries[i as int].0 + ": "@ + entries[i as int].1@));
                        }
                    }
                },
                None => {},
            }
            i += 1;
        }
        proof {
            assert(entries.take(n as int) == entries);
        }
        out.append("\r\n\r\n");
        match &self.body {
            Some(b) => {
                out.append(b.as_str());
            },
            None => {
                assert(out@ + Seq::<char>::empty() == out@);
            },
        }
        out
    }
}

/// What a request builder holds.
pub struct RequestBuilderView {
    pub method: Option<Method>,
    pub route: Option<Seq<char>>,
    pub http_version: Option<Seq<char>>,
    pub headers: Map<Seq<char>, Seq<char>>,
    pub body: Option<Seq<char>>,
}

/// A request in the making.
#[derive(Clone)]
pub struct HttpRequestBuilder {
    method: Option<Method>,
    route: Option<String>,
    http_version: Option<String>,
    headers: TextMap<String>,
    body: Option<String>,
}

impl Default for HttpRequestBuilder {
    /// A builder for `GET / HTTP/1.1`, with no header and no body.
    fn default() -> (b: Self)
        ensures
            b@ == (RequestBuilderView {
                method: Some(Method::GET),
                route: Some("/"@),
                http_version: Some("HTTP/1.1"@),
                headers: Map::empty(),
                body: None,
            }),
    {
        let b = HttpRequestBuilder {
            method: Some(Method::GET),
            route: Some("/".to_string()),
            http_version: Some("HTTP/1.1".to_string()),
            headers: TextMap::new(),
            body: None,
        };
        assert(b@.headers =~= Map::empty());
        b
    }
}

impl HttpRequestBuilder {
    /// What the builder holds.
    pub closed spec fn view(&self) -> RequestBuilderView {
        RequestBuilderView {
            method: self.method,
            route: text_opt(self.route),
            http_version: text_opt(self.http_version),
            headers: header_texts(self.headers@),
            body: text_opt(self.body),
        }
    }

    /// A builder with the protocol version `HTTP/1.1` and nothing else.
    pub fn new() -> (b: Self)
        ensures
            b@ == (RequestBuilderView {
                method: None,
                route: None,
                http_version: Some("HTTP/1.1"@),
                headers: Map::empty(),
                body: None,
            }),
    {
        let b = HttpRequestBuilder {
            method: None,
            route: None,
            http_version: Some("HTTP/1.1".to_string()),
            headers: TextMap::new(),
            body: None,
        };
        assert(b@.headers =~= Map::empty());
        b
    }

    /// Sets the method.
    pub fn method(self, method: Method) -> (b: Self)
        ensures
            b@ == (RequestBuilderView { method: Some(method), ..self@ }),
    {
        let mut b = self;
        b.method = Some(method);
        b
    }

    /// Sets the route.
    pub fn route(self, route: String) -> (b: Self)
        ensures
            b@ == (RequestBuilderView { route: Some(route@), ..self@ }),
    {
        let mut b = self;
        b.route = Some(route);
        b
    }

    /// Sets the protocol version.
    pub fn http_version(self, http_version: String) -> (b: Self)
        ensures
            b@ == (RequestBuilderView { http_version: Some(http_version@), ..self@ }),
    {
        let mut b = self;
        b.http_version = Some(http_version);
        b
    }

    /// Sets the header `key` to `value`, in place of what it was set to before;
    /// with no value, the header is left out of the request.
    pub fn header(self, key: String, value: Option<String>) -> (b: Self)
        ensures
            b@ == (RequestBuilderView {
                headers: match value {
                    Some(v) => self@.headers.insert(key@, v@),
                    None => self@.headers.remove(key@),
                },
                ..self@
            }),
    {
        let ghost before = self.headers@;
        let headers = match value {
            Some(v) => {
                let h = self.headers.insert(key, v);
                assert(header_texts(h@) =~= header_texts(before).insert(key@, v@));
                h
            },
            None => {
                let (h, _) = self.headers.remove(key.as_str());
                assert(header_texts(h@) =~= header_texts(before).remove(key@));
                h
            },
        };
        HttpRequestBuilder {
            method: self.method,
            route: self.route,
            http_version: self.http_version,
            headers,
            body: self.body,
        }
    }

    /// Sets the body.
    pub fn body(self, body: String) -> (b: Self)
        ensures
            b@ == (RequestBuilderView { body: Some(body@), ..self@ }),
    {
        let mut b = self;
        b.body = Some(body);
        b
    }

    /// Whether the method and the route were set, so that the request can be
    /// built.
    pub fn is_complete(&self) -> (r: bool)
        ensures
            r == (self@.method is Some && self@.route is Some),
    {
        self.method.is_some() && self.route.is_some()
    }

    /// Finishes the request: it has no peer address, and the protocol version
    /// `HTTP/1.1` where none was set.
    pub fn build(self) -> (r: HttpRequest)
        requires
            self@.method is Some,
            self@.route is Some,
        ensures
            r@ == (RequestView {
                ip: None,
                method: self@.method.unwrap(),
                route: self@.route.unwrap(),
                http_version: match self@.http_version {
                    Some(v) => v,
                    None => "HTTP/1.1"@,
                },
                headers: self@.headers,
                body: self@.body,
            }),
    {
        let method = match self.method {
            Some(m) => m,
            None => Method::GET,
        };
        let route = match self.route {
            Some(r) => r,
            None => String::new(),
        };
        let http_version = match self.http_version {
            Some(v) => v,
            None => "HTTP/1.1".to_string(),
        };
        HttpRequest { ip: None, method, route, http_version, headers: self.headers, body: self.body }
    }
}

} // verus!
