//! What the reader makes of a well-formed request line: the proof that a
//! line written from a method, a route and a version is read back as them.

use crate::http::request::{lemma_method_round_trip, Method, PeerAddr};
use crate::http::wire::{
    body_extent, head, headers_of, lemma_head_len, line_len, parse_request, request_tokens,
};
use crate::text::{is_space, lemma_first_index_is, split, trim, trim_end, trim_start};
use vstd::prelude::*;
use vstd::utf8::*;

verus! {

/// Whether `t` can stand as one token of a request line: it holds no white
/// space.
pub open spec fn is_token(t: Seq<char>) -> bool {
    forall|i: int| 0 <= i < t.len() ==> !is_space(#[trigger] t[i])
}

/// The request line that names `method`, `route` and `version`, with its line
/// end.
pub open spec fn request_line(method: Method, route: Seq<char>, version: Seq<char>) -> Seq<char> {
    method.name() + seq![' '] + route + seq![' '] + version + seq!['\r', '\n']
}

/// The encoding of a text that is made of two is made of their encodings.
pub proof fn lemma_encode_concat(a: Seq<char>, b: Seq<char>)
    ensures
        encode_utf8(a + b) == encode_utf8(a) + encode_utf8(b),
    decreases a.len(),
{
    if a.len() == 0 {
        assert(a + b == b);
        assert(encode_utf8(a) + encode_utf8(b) == encode_utf8(b));
    } else {
        lemma_encode_concat(a.drop_first(), b);
        assert((a + b).drop_first() == a.drop_first() + b);
        assert((a + b)[0] == a[0]);
        assert(encode_scalar(a[0] as u32) + (encode_utf8(a.drop_first()) + encode_utf8(b)) == (
        encode_scalar(a[0] as u32) + encode_utf8(a.drop_first())) + encode_utf8(b));
    }
}

/// Whether no byte of `b` is a line feed.
pub open spec fn has_no_line_feed(b: Seq<u8>) -> bool {
    forall|i: int| 0 <= i < b.len() ==> #[trigger] b[i] != 10u8
}

/// The encoding of a character other than the line feed holds no line feed.
pub proof fn lemma_scalar_has_no_line_feed(c: char)
    requires
        c != '\n',
    ensures
        has_no_line_feed(encode_scalar(c as u32)),
{
    let s = c as u32;
    assert(s != 10);
    assert(s <= 0x7f ==> (s & 0x7F) as u8 != 10u8) by (bit_vector)
        requires
            s != 10,
    ;
    assert(0xC0u8 | ((s >> 6) & 0x1F) as u8 != 10u8) by (bit_vector);
    assert(0xE0u8 | ((s >> 12) & 0x0F) as u8 != 10u8) by (bit_vector);
    assert(0xF0u8 | ((s >> 18) & 0x7) as u8 != 10u8) by (bit_vector);
    assert(0x80u8 | (s & 0x3F) as u8 != 10u8) by (bit_vector);
    assert(0x80u8 | ((s >> 6) & 0x3F) as u8 != 10u8) by (bit_vector);
    assert(0x80u8 | ((s >> 12) & 0x3F) as u8 != 10u8) by (bit_vector);
}

/// The encoding of a text without a line feed holds no line feed.
pub proof fn lemma_encoding_has_no_line_feed(t: Seq<char>)
    requires
        forall|i: int| 0 <= i < t.len() ==> t[i] != '\n',
    ensures
        has_no_line_feed(encode_utf8(t)),
    decreases t.len(),
{
    if t.len() > 0 {
        lemma_scalar_has_no_line_feed(t[0]);
        let rest = t.drop_first();
        assert forall|i: int| 0 <= i < rest.len() implies rest[i] != '\n' by {
            assert(rest[i] == t[i + 1]);
        }
        lemma_encoding_has_no_line_feed(rest);
        let first = encode_scalar(t[0] as u32);
        let whole = encode_utf8(t);
        assert(whole == first + encode_utf8(rest));
        assert forall|i: int| 0 <= i < whole.len() implies #[trigger] whole[i] != 10u8 by {
            if i < first.len() {
                assert(whole[i] == first[i]);
            } else {
                assert(whole[i] == encode_utf8(rest)[i - first.len()]);
            }
        }
    }
}

/// Trimming takes white space off the end.
pub proof fn lemma_trim_end_strips(t: Seq<char>, tail: Seq<char>)
    requires
        forall|i: int| 0 <= i < tail.len() ==> is_space(#[trigger] tail[i]),
    ensures
        trim_end(t + tail) == trim_end(t),
    decreases tail.len(),
{
    if tail.len() == 0 {
        assert(t + tail == t);
    } else {
        let u = t + tail;
        assert(u.last() == tail.last());
        assert(is_space(tail.last()));
        assert(u.drop_last() == t + tail.drop_last());
        lemma_trim_end_strips(t, tail.drop_last());
    }
}

/// A text without the separator is one piece.
pub proof fn lemma_split_one(t: Seq<char>, sep: char)
    requires
        forall|i: int| 0 <= i < t.len() ==> t[i] != sep,
    ensures
        split(t, sep) == seq![t],
{
    lemma_first_index_is(t, sep, t.len() as int);
}

/// A piece without the separator, the separator, and more text split into
/// that piece and the pieces of the rest.
pub proof fn lemma_split_first(a: Seq<char>, rest: Seq<char>, sep: char)
    requires
        forall|i: int| 0 <= i < a.len() ==> a[i] != sep,
    ensures
        split(a + seq![sep] + rest, sep) == seq![a] + split(rest, sep),
{
    let t = a + seq![sep] + rest;
    assert forall|j: int| 0 <= j < a.len() implies t[j] != sep by {
        assert(t[j] == a[j]);
    }
    assert(t[a.len() as int] == sep);
    lemma_first_index_is(t, sep, a.len() as int);
    assert(t.take(a.len() as int) == a);
    assert(t.skip(a.len() as int + 1) == rest);
}

/// Three tokens joined by single spaces split into the three.
pub proof fn lemma_split_three(a: Seq<char>, b: Seq<char>, c: Seq<char>)
    requires
        is_token(a),
        is_token(b),
        is_token(c),
    ensures
        split(a + seq![' '] + b + seq![' '] + c, ' ') == seq![a, b, c],
{
    assert(is_space(' '));
    assert forall|i: int| 0 <= i < a.len() implies a[i] != ' ' by {
        assert(!is_space(a[i]));
    }
    assert forall|i: int| 0 <= i < b.len() implies b[i] != ' ' by {
        assert(!is_space(b[i]));
    }
    assert forall|i: int| 0 <= i < c.len() implies c[i] != ' ' by {
        assert(!is_space(c[i]));
    }
    lemma_split_one(c, ' ');
    lemma_split_first(b, c, ' ');
    lemma_split_first(a, b + seq![' '] + c, ' ');
    assert(a + seq![' '] + (b + seq![' '] + c) == a + seq![' '] + b + seq![' '] + c);
    assert(seq![a] + (seq![b] + seq![c]) == seq![a, b, c]);
}

/// The name of a method is a token, and is not empty.
pub proof fn lemma_method_name_is_token(m: Method)
    ensures
        is_token(m.name()),
        m.name().len() > 0,
{
    reveal_strlit("GET");
    reveal_strlit("POST");
    reveal_strlit("PUT");
    reveal_strlit("DELETE");
}

/// A request line that names a method, a route without white space and a
/// version without white space that is not empty is read back as exactly
/// these three, whatever bytes follow it; and a request comes of it exactly
/// where the bytes that follow hold header lines and a body as the reader
/// takes them.
pub proof fn law_request_line_is_read_back(
    method: Method,
    route: Seq<char>,
    version: Seq<char>,
    rest: Seq<u8>,
    ip: Option<PeerAddr>,
)
    requires
        is_token(route),
        is_token(version),
        version.len() > 0,
    ensures
        ({
            let line = encode_utf8(request_line(method, route, version));
            let s = line + rest;
            &&& line_len(s) == line.len()
            &&& request_tokens(s.take(line_len(s))) == seq![method.name(), route, version]
            &&& parse_request(s, ip) is Some <==> (head(rest) matches Some((lines, m))
                && body_extent(headers_of(lines), rest.len() - m) is Some)
            &&& parse_request(s, ip) matches Some(req) ==> req.method == method && req.route
                == route && req.http_version == version
        }),
{
    let name = method.name();
    let text = name + seq![' '] + route + seq![' '] + version;
    let chars = request_line(method, route, version);
    let line = encode_utf8(chars);
    let s = line + rest;
    lemma_method_name_is_token(method);
    lemma_method_round_trip(method);
    assert(is_space(' ') && is_space('\r') && is_space('\n'));

    // The line feed that ends the line is the first one among the bytes.
    let before = text + seq!['\r'];
    assert(chars == before + seq!['\n']);
    assert forall|i: int| 0 <= i < before.len() implies before[i] != '\n' by {
        if i < name.len() {
            assert(before[i] == name[i]);
            assert(!is_space(name[i]));
        } else if i == name.len() {
        } else if i < name.len() + 1 + route.len() {
            assert(before[i] == route[i - name.len() - 1]);
            assert(!is_space(route[i - name.len() - 1]));
        } else if i == name.len() + 1 + route.len() {
        } else if i < text.len() {
            assert(before[i] == version[i - name.len() - route.len() - 2]);
            assert(!is_space(version[i - name.len() - route.len() - 2]));
        } else {
        }
    }
    lemma_encoding_has_no_line_feed(before);
    lemma_encode_concat(before, seq!['\n']);
    let nl = seq!['\n'];
    assert(encode_utf8(nl) == seq![10u8]) by {
        assert(nl.drop_first() == Seq::<char>::empty());
        assert(encode_utf8(nl.drop_first()) == Seq::<u8>::empty());
        let c = nl[0] as u32;
        assert(c == 10);
        assert((c & 0x7F) as u8 == 10u8) by (bit_vector)
            requires
                c == 10,
        ;
        assert(encode_scalar(c) == seq![10u8]);
        assert(encode_utf8(nl) == encode_scalar(c) + encode_utf8(nl.drop_first()));
    }
    let eb = encode_utf8(before);
    assert(line == eb + seq![10u8]);
    assert forall|j: int| 0 <= j < eb.len() implies s[j] != 10u8 by {
        assert(s[j] == eb[j]);
    }
    assert(s[eb.len() as int] == 10u8);
    lemma_first_index_is(s, 10u8, eb.len() as int);
    assert(line_len(s) == line.len());
    assert(s.take(line.len() as int) == line);
    assert(s.skip(line.len() as int) == rest);

    // The bytes of the line are text, and the text is the line.
    encode_utf8_valid_utf8(chars);
    encode_utf8_decode_utf8(chars);

    // Trimmed, the line is the three tokens with a space between them.
    assert(chars == text + seq!['\r', '\n']);
    assert(text[0] == name[0]);
    assert(!is_space(name[0]));
    assert(!is_space(chars[0]));
    assert(trim_start(chars) == chars);
    lemma_trim_end_strips(text, seq!['\r', '\n']);
    assert(text.last() == version.last());
    assert(!is_space(version.last()));
    assert(trim_end(text) == text);
    assert(trim(chars) == text);
    lemma_split_three(name, route, version);
    assert(request_tokens(line) == seq![name, route, version]);

    // What is left to the reader is what follows the line.
    match head(rest) {
        Some((lines, m)) => {
            lemma_head_len(rest);
            assert(s.skip(line.len() + m).len() == rest.len() - m);
        },
        None => {},
    }
}

} // verus!
