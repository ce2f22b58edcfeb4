//! The grammar of a request on the wire: a request line, header lines up to
//! an empty line, and as many bytes of body as `Content-Length` asks for.

use crate::http::request::{header_texts, Method, PeerAddr, RequestView};
use crate::text::{
    chars_of, decimal_value, find_byte, first_index, lemma_first_index, lemma_first_index_is,
    parse_decimal, split,
    split_once, split_pair, split_text, texts, trim, trim_text, utf8_lossy, utf8_text,
};
use crate::text_map::TextMap;
use vstd::prelude::*;
use vstd::slice::slice_subrange;
use vstd::utf8::*;

verus! {

/// The length of the first line of `s`, its line feed included: all of `s`
/// where it holds no line feed.
pub open spec fn line_len(s: Seq<u8>) -> int {
    let i = first_index(s, 10u8);
    if i < s.len() {
        i + 1
    } else {
        s.len() as int
    }
}

/// A line without its end: without the line feed that it ends with and, only
/// then, without a carriage return before that.
pub open spec fn strip_eol(line: Seq<u8>) -> Seq<u8> {
    if line.len() > 0 && line.last() == 10u8 {
        let a = line.drop_last();
        if a.len() > 0 && a.last() == 13u8 {
            a.drop_last()
        } else {
            a
        }
    } else {
        line
    }
}

/// The tokens of a request line: its text, trimmed, split at every space.
pub open spec fn request_tokens(line: Seq<u8>) -> Seq<Seq<char>> {
    split(trim(decode_utf8(line)), ' ')
}

/// The header lines at the start of `s`, as text, and the number of bytes that
/// they take, the empty line that ends them included. They end at the first
/// empty line or with `s`. `None` where a line before that is not UTF-8.
pub open spec fn head(s: Seq<u8>) -> Option<(Seq<Seq<char>>, int)>
    decreases s.len(),
{
    if s.len() == 0 {
        Some((Seq::empty(), 0))
    } else {
        let n = line_len(s);
        let content = strip_eol(s.take(n));
        if !valid_utf8(content) {
            None
        } else if content.len() == 0 {
            Some((Seq::empty(), n))
        } else if 0 < n <= s.len() {
            match head(s.skip(n)) {
                Some((lines, m)) => Some((seq![decode_utf8(content)] + lines, n + m)),
                None => None,
            }
        } else {
            None
        }
    }
}

/// The headers that the lines spell out. A line is a name, a colon and a
/// space, and a value; a line without the two is passed over; of two lines
/// with one name the later one counts.
pub open spec fn headers_of(lines: Seq<Seq<char>>) -> Map<Seq<char>, Seq<char>>
    decreases lines.len(),
{
    if lines.len() == 0 {
        Map::empty()
    } else {
        let before = headers_of(lines.drop_last());
        match split_once(lines.last()) {
            Some((k, v)) => before.insert(k, v),
            None => before,
        }
    }
}

/// The number of bytes of body that the headers ask for: none without a
/// `Content-Length`. `None` where its value is no decimal number, or more
/// than the `available` bytes.
pub open spec fn body_extent(headers: Map<Seq<char>, Seq<char>>, available: int) -> Option<
    Option<nat>,
> {
    if !headers.contains_key("Content-Length"@) {
        Some(None)
    } else {
        match decimal_value(headers["Content-Length"@]) {
            Some(n) => if n <= available {
                Some(Some(n))
            } else {
                None
            },
            None => None,
        }
    }
}

/// The bytes of the body of the request that `s` holds: those that follow the
/// header lines, as many as `Content-Length` says. `None` where the headers
/// ask for no body, or for none that is there.
pub open spec fn body_bytes(s: Seq<u8>) -> Option<Seq<u8>> {
    let n = line_len(s);
    match head(s.skip(n)) {
        Some((lines, m)) => {
            let rest = s.skip(n + m);
            match body_extent(headers_of(lines), rest.len() as int) {
                Some(Some(k)) => Some(rest.take(k as int)),
                _ => None,
            }
        },
        None => None,
    }
}

/// The request that the bytes `s` of a connection hold, read from a peer at `ip`.
/// `None` where the request line is not UTF-8 or has fewer than three tokens,
/// a header line is not UTF-8, `Content-Length` is no number or asks for more
/// bytes than follow the headers, or the first token names no method.
pub open spec fn parse_request(s: Seq<u8>, ip: Option<PeerAddr>) -> Option<RequestView> {
    let n = line_len(s);
    if !valid_utf8(s.take(n)) {
        None
    } else {
        let tokens = request_tokens(s.take(n));
        if tokens.len() < 3 {
            None
        } else {
            match head(s.skip(n)) {
                None => None,
                Some((lines, m)) => {
                    let headers = headers_of(lines);
                    let rest = s.skip(n + m);
                    match body_extent(headers, rest.len() as int) {
                        None => None,
                        Some(extent) => match Method::named(tokens[0]) {
                            None => None,
                            Some(method) => Some(
                                RequestView {
                                    ip,
                                    method,
                                    route: tokens[1],
                                    http_version: tokens[2],
                                    headers,
                                    body: match extent {
                                        Some(k) => Some(utf8_lossy(rest.take(k as int))),
                                        None => None,
                                    },
                                },
                            ),
                        },
                    }
                },
            }
        }
    }
}

/// What is to be read next from a connection, given the bytes read so far.
#[derive(Clone, Copy, Debug, PartialEq, Eq)]
pub enum Demand {
    /// One more line, up to its line feed or to the end of the stream.
    Line,
    /// This many more bytes of body.
    Body(usize),
    /// Nothing: the bytes are ready to be read as a request.
    Done,
}

/// Whether `s` holds an empty line, which ends the header lines.
pub open spec fn headers_ended(s: Seq<u8>) -> bool
    decreases s.len(),
{
    if s.len() == 0 {
        false
    } else {
        let n = line_len(s);
        if strip_eol(s.take(n)).len() == 0 {
            true
        } else if 0 < n <= s.len() {
            headers_ended(s.skip(n))
        } else {
            false
        }
    }
}

/// What is to be read after the bytes `s`: a line while the header lines
/// have not ended; then the bytes of body that `Content-Length` asks for and
/// that are not there yet; nothing more once all are there, or once `s` can
/// hold no request any more.
pub open spec fn demand_of(s: Seq<u8>) -> Demand {
    let n = line_len(s);
    if s.len() == 0 {
        Demand::Line
    } else if !valid_utf8(s.take(n)) || request_tokens(s.take(n)).len() < 3 {
        Demand::Done
    } else {
        match head(s.skip(n)) {
            None => Demand::Done,
            Some((lines, m)) => if !headers_ended(s.skip(n)) {
                Demand::Line
            } else {
                match body_extent(headers_of(lines), usize::MAX as int) {
                    Some(Some(k)) => if s.len() - (n + m) >= k {
                        Demand::Done
                    } else {
                        Demand::Body((k - (s.len() - (n + m))) as usize)
                    },
                    _ => Demand::Done,
                }
            },
        }
    }
}

/// The header lines take no more bytes than there are.
pub proof fn lemma_head_len(s: Seq<u8>)
    requires
        head(s) is Some,
    ensures
        0 <= head(s).unwrap().1 <= s.len(),
    decreases s.len(),
{
    lemma_first_index(s, 10u8);
    if s.len() > 0 {
        let n = line_len(s);
        let content = strip_eol(s.take(n));
        if content.len() > 0 {
            lemma_head_len(s.skip(n));
        }
    }
}

/// The fields of a request that was read are the first three tokens of its
/// request line, letter for letter, and its peer address is the one given.
pub proof fn law_fields_are_tokens(s: Seq<u8>, ip: Option<PeerAddr>)
    requires
        parse_request(s, ip) is Some,
    ensures
        ({
            let tokens = request_tokens(s.take(line_len(s)));
            let req = parse_request(s, ip).unwrap();
            &&& tokens.len() >= 3
            &&& req.method.name() == tokens[0]
            &&& req.route == tokens[1]
            &&& req.http_version == tokens[2]
            &&& req.ip == ip
        }),
{
}

/// A request line with fewer than three tokens makes no request, whatever
/// follows it.
pub proof fn law_short_request_line(s: Seq<u8>, ip: Option<PeerAddr>)
    requires
        request_tokens(s.take(line_len(s))).len() < 3,
    ensures
        parse_request(s, ip) is None,
{
}

/// A request that was read has a body exactly where its headers hold
/// `Content-Length`: without that header the body is absent, whatever bytes
/// follow the headers.
pub proof fn law_body_iff_content_length(s: Seq<u8>, ip: Option<PeerAddr>)
    requires
        parse_request(s, ip) is Some,
    ensures
        ({
            let req = parse_request(s, ip).unwrap();
            req.body is Some <==> req.headers.contains_key("Content-Length"@)
        }),
{
}

/// The body of a request that was read is the bytes that follow its headers,
/// as many as `Content-Length` says and no more, read as UTF-8 with
/// replacements.
pub proof fn law_body_is_counted_bytes(s: Seq<u8>, ip: Option<PeerAddr>)
    requires
        parse_request(s, ip) is Some,
        parse_request(s, ip).unwrap().body is Some,
    ensures
        ({
            let n = line_len(s);
            let (lines, m) = head(s.skip(n)).unwrap();
            let req = parse_request(s, ip).unwrap();
            let k = decimal_value(req.headers["Content-Length"@]).unwrap();
            &&& n + m + k <= s.len()
            &&& body_bytes(s) == Some(s.subrange(n + m, n + m + k))
            &&& req.body == Some(utf8_lossy(s.subrange(n + m, n + m + k)))
        }),
{
    let n = line_len(s);
    let (lines, m) = head(s.skip(n)).unwrap();
    let req = parse_request(s, ip).unwrap();
    let k = decimal_value(req.headers["Content-Length"@]).unwrap();
    lemma_first_index(s, 10u8);
    lemma_head_len(s.skip(n));
    assert(s.skip(n + m).take(k as int) == s.subrange(n + m, n + m + k));
}

/// Header lines that an empty line ends are the same whatever bytes follow.
pub proof fn lemma_head_ignores_what_follows(s: Seq<u8>, tail: Seq<u8>)
    requires
        headers_ended(s),
    ensures
        head(s + tail) == head(s),
        headers_ended(s + tail),
    decreases s.len(),
{
    let n = line_len(s);
    let whole = s + tail;
    lemma_first_index(s, 10u8);
    if first_index(s, 10u8) < s.len() {
        let i = first_index(s, 10u8);
        assert forall|j: int| 0 <= j < i implies whole[j] != 10u8 by {
            assert(whole[j] == s[j]);
        }
        assert(whole[i] == s[i]);
        lemma_first_index_is(whole, 10u8, i);
        assert(whole.take(n) == s.take(n));
        assert(whole.skip(n) == s.skip(n) + tail);
        if strip_eol(s.take(n)).len() > 0 {
            lemma_head_ignores_what_follows(s.skip(n), tail);
        }
    } else {
        // A last line without a line feed is all of `s`, and is not empty.
        assert(s.take(n) == s);
        assert(s.last() == s[s.len() - 1]);
        assert(strip_eol(s) == s);
        assert(s.skip(n) == Seq::<u8>::empty());
        assert(!headers_ended(s.skip(n)));
    }
}

/// A request whose request line and header lines are complete, and whose
/// body is there, is read the same whatever bytes follow it.
pub proof fn law_complete_request_ignores_what_follows(
    s: Seq<u8>,
    tail: Seq<u8>,
    ip: Option<PeerAddr>,
)
    requires
        first_index(s, 10u8) < s.len(),
        headers_ended(s.skip(line_len(s))),
        parse_request(s, ip) is Some,
    ensures
        parse_request(s + tail, ip) == parse_request(s, ip),
{
    let n = line_len(s);
    let whole = s + tail;
    let i = first_index(s, 10u8);
    lemma_first_index(s, 10u8);
    assert forall|j: int| 0 <= j < i implies whole[j] != 10u8 by {
        assert(whole[j] == s[j]);
    }
    assert(whole[i] == s[i]);
    lemma_first_index_is(whole, 10u8, i);
    assert(whole.take(n) == s.take(n));
    assert(whole.skip(n) == s.skip(n) + tail);
    lemma_head_ignores_what_follows(s.skip(n), tail);
    lemma_head_len(s.skip(n));
    let (lines, m) = head(s.skip(n)).unwrap();
    let rest = s.skip(n + m);
    assert(whole.skip(n + m) == rest + tail);
    match body_extent(headers_of(lines), rest.len() as int) {
        Some(Some(k)) => {
            assert((rest + tail).take(k as int) == rest.take(k as int));
        },
        _ => {},
    }
}

/// The length of the first line of `s`.
pub fn first_line_len(s: &[u8]) -> (n: usize)
    ensures
        n == line_len(s@),
        n <= s@.len(),
        s@.len() > 0 ==> n > 0,
{
    let i = find_byte(s, 10u8);
    if i < s.len() {
        i + 1
    } else {
        s.len()
    }
}

/// The length of `line` without its end.
pub fn content_len(line: &[u8]) -> (n: usize)
    ensures
        n <= line@.len(),
        line@.take(n as int) == strip_eol(line@),
{
    let len = line.len();
    if len > 0 && line[len - 1] == 10u8 {
        if len > 1 && line[len - 2] == 13u8 {
            assert(line@.take(len - 2) == line@.drop_last().drop_last());
            len - 2
        } else {
            assert(line@.take(len - 1) == line@.drop_last());
            len - 1
        }
    } else {
        assert(line@.take(len as int) == line@);
        len
    }
}

/// Reads the request line at the start of `stream`: its tokens and its length
/// in bytes. `None` where it is not UTF-8.
pub fn read_request_line(stream: &[u8]) -> (r: Option<(Vec<String>, usize)>)
    ensures
        r is Some <==> valid_utf8(stream@.take(line_len(stream@))),
        r matches Some((tokens, n)) ==> n == line_len(stream@) && texts(tokens@) == request_tokens(
            stream@.take(n as int),
        ),
{
    let n = first_line_len(stream);
    let line = slice_subrange(stream, 0, n);
    assert(line@ == stream@.take(n as int));
    match utf8_text(line) {
        None => None,
        Some(t) => {
            let chars = chars_of(t);
            let trimmed = trim_text(chars.as_slice());
            let tokens = split_text(trimmed, ' ');
            Some((tokens, n))
        },
    }
}

/// Reads the header lines that `stream` starts with, up to the first empty
/// line or the end: the lines, and the index at which the body starts.
/// `None` where a line is not UTF-8.
pub fn read_head_lines(stream: &[u8]) -> (r: Option<(Vec<String>, usize)>)
    ensures
        r is Some <==> head(stream@) is Some,
        r matches Some((lines, at)) ==> {
            let (texts_read, m) = head(stream@).unwrap();
            &&& at == m
            &&& at <= stream@.len()
            &&& texts(lines@) == texts_read
        },
{
    let ghost s = stream@;
    let ghost whole = head(s);
    let mut lines: Vec<String> = Vec::new();
    let mut pos: usize = 0;
    proof {
        assert(s.skip(0) == s);
        assert(texts(lines@) == Seq::<Seq<char>>::empty());
        match head(s.skip(pos as int)) {
            Some((ls, m)) => {
                assert(texts(lines@) + ls == ls);
            },
            None => {},
        }
    }
    loop
        invariant
            s == stream@,
            whole == head(s),
            pos <= s.len(),
            whole == match head(s.skip(pos as int)) {
                Some((ls, m)) => Some((texts(lines@) + ls, pos + m)),
                None => None,
            },
        decreases s.len() - pos,
    {
        let rest = slice_subrange(stream, pos, stream.len());
        assert(rest@ == s.skip(pos as int));
        if rest.len() == 0 {
            assert(texts(lines@) + Seq::<Seq<char>>::empty() == texts(lines@));
            return Some((lines, pos));
        }
        let n = first_line_len(rest);
        let line = slice_subrange(rest, 0, n);
        assert(line@ == rest@.take(n as int));
        let c = content_len(line);
        let content = slice_subrange(line, 0, c);
        assert(content@ == strip_eol(rest@.take(n as int)));
        match utf8_text(content) {
            None => {
                return None;
            },
            Some(t) => {
                if c == 0 {
                    assert(texts(lines@) + Seq::<Seq<char>>::empty() == texts(lines@));
                    return Some((lines, pos + n));
                }
                let ghost before = texts(lines@);
                lines.push(t.to_string());
                proof {
                    assert(texts(lines@) == before.push(t@));
                    assert(rest@.skip(n as int) == s.skip(pos + n));
                    match head(s.skip(pos + n)) {
                        Some((ls, m)) => {
                            assert(before + (seq![t@] + ls) == texts(lines@) + ls);
                        },
                        None => {},
                    }
                }
                pos = pos + n;
            },
        }
    }
}

/// The headers that `lines` spell out.
pub fn headers_from(lines: &Vec<String>) -> (headers: TextMap<String>)
    ensures
        header_texts(headers@) == headers_of(texts(lines@)),
{
    let mut headers: TextMap<String> = TextMap::new();
    let mut i: usize = 0;
    assert(header_texts(headers@) =~= headers_of(texts(lines@).take(0)));
    while i < lines.len()
        invariant
            i <= lines@.len(),
            header_texts(headers@) == headers_of(texts(lines@).take(i as int)),
        decreases lines@.len() - i,
    {
        let chars = chars_of(lines[i].as_str());
        let ghost before = headers@;
        proof {
            let t = texts(lines@).take(i + 1);
            assert(t.drop_last() == texts(lines@).take(i as int));
            assert(t.last() == chars@);
        }
        match split_pair(chars.as_slice()) {
            Some((k, v)) => {
                headers = headers.insert(k, v);
                assert(header_texts(headers@) =~= header_texts(before).insert(k@, v@));
            },
            None => {},
        }
        i += 1;
    }
    assert(texts(lines@).take(i as int) == texts(lines@));
    headers
}

/// Reads the header lines that `stream` starts with: the headers and the
/// index at which the body starts. `None` where a line is not UTF-8.
pub fn read_headers(stream: &[u8]) -> (r: Option<(TextMap<String>, usize)>)
    ensures
        r is Some <==> head(stream@) is Some,
        r matches Some((headers, at)) ==> {
            let (lines, m) = head(stream@).unwrap();
            &&& at == m
            &&& at <= stream@.len()
            &&& header_texts(headers@) == headers_of(lines)
        },
{
    match read_head_lines(stream) {
        Some((lines, at)) => Some((headers_from(&lines), at)),
        None => None,
    }
}

/// The number of bytes of body that `headers` ask for, of the `available` ones.
pub fn body_len(headers: &TextMap<String>, available: usize) -> (r: Option<Option<usize>>)
    ensures
        match body_extent(header_texts(headers@), available as int) {
            Some(Some(n)) => r == Some(Some(n as usize)) && n <= available,
            Some(None) => r == Some(None::<usize>),
            None => r is None,
        },
{
    assert(header_texts(headers@).contains_key("Content-Length"@) == headers@.contains_key(
        "Content-Length"@,
    ));
    match headers.get("Content-Length") {
        None => Some(None),
        Some(value) => {
            assert(header_texts(headers@)["Content-Length"@] == value@);
            let chars = chars_of(value.as_str());
            match parse_decimal(chars.as_slice()) {
                Some(n) => if n <= available {
                    Some(Some(n))
                } else {
                    None
                },
                None => None,
            }
        },
    }
}

/// Whether `stream` holds an empty line.
pub fn has_empty_line(stream: &[u8]) -> (r: bool)
    ensures
        r == headers_ended(stream@),
{
    let ghost s = stream@;
    let mut pos: usize = 0;
    assert(s.skip(0) == s);
    loop
        invariant
            s == stream@,
            pos <= s.len(),
            headers_ended(s) == headers_ended(s.skip(pos as int)),
        decreases s.len() - pos,
    {
        let rest = slice_subrange(stream, pos, stream.len());
        assert(rest@ == s.skip(pos as int));
        if rest.len() == 0 {
            return false;
        }
        let n = first_line_len(rest);
        let line = slice_subrange(rest, 0, n);
        assert(line@ == rest@.take(n as int));
        if content_len(line) == 0 {
            return true;
        }
        assert(rest@.skip(n as int) == s.skip(pos + n));
        pos = pos + n;
    }
}

/// What is to be read next from a connection of which `received` was read,
/// where `received` ends with a whole line, with the body, or with the stream.
pub fn demand(received: &[u8]) -> (d: Demand)
    ensures
        d == demand_of(received@),
{
    if received.len() == 0 {
        return Demand::Line;
    }
    let (tokens, n) = match read_request_line(received) {
        Some(line) => line,
        None => {
            return Demand::Done;
        },
    };
    assert(texts(tokens@).len() == tokens@.len());
    if tokens.len() < 3 {
        return Demand::Done;
    }
    let rest = slice_subrange(received, n, received.len());
    assert(rest@ == received@.skip(n as int));
    let (headers, at) = match read_headers(rest) {
        Some(h) => h,
        None => {
            return Demand::Done;
        },
    };
    if !has_empty_line(rest) {
        return Demand::Line;
    }
    let have = rest.len() - at;
    match body_len(&headers, usize::MAX) {
        Some(Some(k)) => if have >= k {
            Demand::Done
        } else {
            Demand::Body(k - have)
        },
        _ => Demand::Done,
    }
}

} // verus!
