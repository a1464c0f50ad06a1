//! Requests and responses: the request line, a request given as lines, and
//! the response values the server sends.
use crate::error::{HeaderError, HttpRequestError, LinesError};
use crate::headers::{
    distinct_names, drop_name, find_name, first_value, header_map_len, lemma_insert_keeps_distinct,
    lemma_insert_then_get, header_entries, header_map_insert, header_map_new, header_map_try_insert,
    header_value_accepts, insert_entry, lemma_find_name_from, lowercase, parse_header_name,
    valid_header_name, valid_header_value, MAX_HEADER_ENTRIES,
};
use crate::protocol::{parse_uri_path, uri_path_of, ProtocolVersion};
use crate::text::{
    chars_eq, chars_of, find_from, lemma_next_match, lemma_next_match_exact, lemma_split_at_char,
    lemma_split_from_nonempty, match_at, next_match,
    split_by, split_chars, string_of, sub_chars, trim, trim_chars,
};
use http::HeaderMap;
use std::str::FromStr;
use vstd::prelude::*;
use vstd::utf8::encode_utf8;

verus! {

// ---------------------------------------------------------------------------
// Methods and versions
// ---------------------------------------------------------------------------

/// The request methods the server knows.
#[allow(non_camel_case_types)]
#[derive(Debug, Clone, Copy, PartialEq, Eq, Structural, PartialOrd, Ord, Hash)]
pub enum Method {
    GET,
    POST,
    PUT,
    DELETE,
}

impl Method {
    /// The method's name as written in a request line.
    pub open spec fn name(self) -> Seq<char> {
        match self {
            Method::GET => "GET"@,
            Method::POST => "POST"@,
            Method::PUT => "PUT"@,
            Method::DELETE => "DELETE"@,
        }
    }

    /// The method whose name is exactly `s`, if any.
    pub open spec fn named(s: Seq<char>) -> Option<Method> {
        if s == "GET"@ {
            Some(Method::GET)
        } else if s == "POST"@ {
            Some(Method::POST)
        } else if s == "PUT"@ {
            Some(Method::PUT)
        } else if s == "DELETE"@ {
            Some(Method::DELETE)
        } else {
            None
        }
    }

    /// The method's name.
    pub fn as_str(&self) -> (s: &'static str)
        ensures
            s@ == self.name(),
    {
        match self {
            Method::GET => "GET",
            Method::POST => "POST",
            Method::PUT => "PUT",
            Method::DELETE => "DELETE",
        }
    }

    /// The method whose name is exactly `s` (names are case-sensitive).
    pub fn from_name(s: &str) -> (m: Option<Method>)
        ensures
            m == Method::named(s@),
    {
        let cs = chars_of(s);
        if chars_eq(&cs, &chars_of("GET")) {
            Some(Method::GET)
        } else if chars_eq(&cs, &chars_of("POST")) {
            Some(Method::POST)
        } else if chars_eq(&cs, &chars_of("PUT")) {
            Some(Method::PUT)
        } else if chars_eq(&cs, &chars_of("DELETE")) {
            Some(Method::DELETE)
        } else {
            None
        }
    }
}

/// A method's name reads back as that method, and a name that reads as a
/// method is that method's name.
pub proof fn lemma_method_name_round_trip(m: Method, s: Seq<char>)
    ensures
        Method::named(m.name()) == Some(m),
        Method::named(s) == Some(m) ==> s == m.name(),
{
    reveal_strlit("GET");
    reveal_strlit("POST");
    reveal_strlit("PUT");
    reveal_strlit("DELETE");
    assert("GET"@.len() == 3 && "PUT"@.len() == 3 && "POST"@.len() == 4 && "DELETE"@.len() == 6);
    assert("GET"@[0] != "PUT"@[0]);
}

/// The protocol version recorded for a parsed request.
#[allow(non_camel_case_types)]
#[derive(Debug, Clone, Copy, PartialEq, Eq, Structural)]
pub enum HTTPVersion {
    HTTP1_1,
    HTTP2,
}

impl HTTPVersion {
    /// The version's name.
    pub open spec fn name(self) -> Seq<char> {
        match self {
            HTTPVersion::HTTP1_1 => "HTTP1_1"@,
            HTTPVersion::HTTP2 => "HTTP2"@,
        }
    }

    /// The version's name.
    pub fn as_str(&self) -> (s: &'static str)
        ensures
            s@ == self.name(),
    {
        match self {
            HTTPVersion::HTTP1_1 => "HTTP1_1",
            HTTPVersion::HTTP2 => "HTTP2",
        }
    }
}

// ---------------------------------------------------------------------------
// The request line
// ---------------------------------------------------------------------------

/// A parsed request line: the method, the path of the request target, and
/// the version (always recorded as HTTP/1.1; the version field is only
/// required to be present).
#[derive(Debug)]
pub struct Request {
    pub method: Method,
    pub path: String,
    pub version: HTTPVersion,
}

/// What parsing the request line `line` gives: its method and target path,
/// or the first thing found wrong. The line is cut at each space; the first
/// piece must name a method, the second must be a URI, and a third piece must
/// be present.
pub open spec fn request_line(line: Seq<char>) -> Result<(Method, Seq<char>), HttpRequestError> {
    let parts = split_by(line, " "@);
    match Method::named(parts[0]) {
        None => Err(HttpRequestError::InvalidMethod),
        Some(m) => if parts.len() < 2 {
            Err(HttpRequestError::InvalidTarget)
        } else {
            match uri_path_of(parts[1]) {
                None => Err(HttpRequestError::InvalidTarget),
                Some(p) => if parts.len() < 3 {
                    Err(HttpRequestError::InvalidVersion)
                } else {
                    Ok((m, p))
                },
            }
        },
    }
}

impl Request {
    /// The request's method.
    pub fn get_method(&self) -> (m: &Method)
        ensures
            *m == self.method,
    {
        &self.method
    }

    /// The path of the request target.
    pub fn resource_path(&self) -> (p: &str)
        ensures
            p@ == self.path@,
    {
        self.path.as_str()
    }

    /// Parses a request line such as `GET /index.html HTTP/1.1`.
    pub fn parse(value: &str) -> (res: Result<Request, HttpRequestError>)
        ensures
            match res {
                Ok(r) => request_line(value@) == Ok::<(Method, Seq<char>), HttpRequestError>(
                    (r.method, r.path@),
                ) && r.version == HTTPVersion::HTTP1_1,
                Err(e) => request_line(value@) == Err::<(Method, Seq<char>), HttpRequestError>(e),
            },
    {
        let line = chars_of(value);
        let space = chars_of(" ");
        proof {
            reveal_strlit(" ");
            lemma_split_from_nonempty(line@, space@, 0);
        }
        let parts = split_chars(&line, &space);
        let first = string_of(&parts[0]);
        let method = match Method::from_name(first.as_str()) {
            Some(m) => m,
            None => {
                return Err(HttpRequestError::InvalidMethod);
            },
        };
        if parts.len() < 2 {
            return Err(HttpRequestError::InvalidTarget);
        }
        let target = string_of(&parts[1]);
        let path = match parse_uri_path(target.as_str()) {
            Some(p) => p,
            None => {
                return Err(HttpRequestError::InvalidTarget);
            },
        };
        if parts.len() < 3 {
            return Err(HttpRequestError::InvalidVersion);
        }
        Ok(Request { method, path, version: HTTPVersion::HTTP1_1 })
    }
}

impl FromStr for Request {
    type Err = HttpRequestError;

    fn from_str(value: &str) -> (res: Result<Request, HttpRequestError>)
        ensures
            match res {
                Ok(r) => request_line(value@) == Ok::<(Method, Seq<char>), HttpRequestError>(
                    (r.method, r.path@),
                ) && r.version == HTTPVersion::HTTP1_1,
                Err(e) => request_line(value@) == Err::<(Method, Seq<char>), HttpRequestError>(e),
            },
    {
        Request::parse(value)
    }
}

// ---------------------------------------------------------------------------
// A request given as lines
// ---------------------------------------------------------------------------

/// The entries of a header map, as `header_entries` gives them.
pub type Entries = Seq<(Seq<char>, Seq<u8>)>;

/// The name part of a header line (before its first `:`).
pub open spec fn header_line_name(line: Seq<char>, colon: int) -> Seq<char> {
    line.subrange(0, colon)
}

/// The value part of a header line (after its first `:`, trimmed).
pub open spec fn header_line_value(line: Seq<char>, colon: int) -> Seq<char> {
    trim(line.subrange(colon + 1, line.len() as int))
}

/// What the header lines from index `i` on make of the headers `es` and the
/// body `body`. `None` stands for the inputs on which the parse always
/// panics: an empty line with no line after it, or a header name or value
/// that `http` refuses. (Inserting into a map that must grow past `http`'s
/// size limit panics too; that depends on the map's hashing history and
/// cannot happen with at most `MAX_HEADER_ENTRIES` entries, so it is left
/// out here.)
///
/// An empty line takes the next line as the body; any other line must hold a
/// `:`, and its trimmed value is inserted under its name (a later line with
/// the same name replaces the value).
pub open spec fn header_section(lines: Seq<Seq<char>>, i: int, es: Entries, body: Seq<char>)
    -> Option<Result<(Entries, Seq<char>), HeaderError>>
    decreases lines.len() - i,
{
    if i < 0 || i >= lines.len() {
        Some(Ok((es, body)))
    } else if lines[i].len() == 0 {
        if i + 1 >= lines.len() {
            None
        } else {
            header_section(lines, i + 2, es, lines[i + 1])
        }
    } else {
        let c = next_match(lines[i], ":"@, 0);
        if c < 0 {
            Some(Err(HeaderError::InvalidHeaderValue))
        } else {
            let name = header_line_name(lines[i], c);
            let value = header_line_value(lines[i], c);
            if !valid_header_name(name) || !valid_header_value(encode_utf8(value)) {
                None
            } else {
                header_section(
                    lines,
                    i + 1,
                    insert_entry(es, lowercase(name), encode_utf8(value)),
                    body,
                )
            }
        }
    }
}

/// What a request given as lines parses to: its method, path, header entries
/// and body, or the error. `None` stands for the inputs on which the parse
/// panics (see `header_section`).
pub open spec fn lines_outcome(lines: Seq<Seq<char>>) -> Option<
    Result<(Method, Seq<char>, Entries, Seq<char>), LinesError>,
> {
    if lines.len() == 0 {
        Some(Err(LinesError::MissingRequestLine))
    } else {
        match request_line(lines[0]) {
            Err(e) => Some(Err(LinesError::InvalidRequestLine(e))),
            Ok((m, p)) => match header_section(lines, 1, Seq::empty(), Seq::empty()) {
                None => None,
                Some(Err(e)) => Some(Err(LinesError::InvalidHeader(e))),
                Some(Ok((es, body))) => Some(Ok((m, p, es, body))),
            },
        }
    }
}

/// Header lines never leave two entries with the same name: each insertion
/// replaces the value of a name already present.
pub proof fn lemma_header_section_distinct(
    lines: Seq<Seq<char>>,
    i: int,
    es: Entries,
    body: Seq<char>,
)
    requires
        distinct_names(es),
    ensures
        header_section(lines, i, es, body) matches Some(Ok((es2, b))) ==> distinct_names(es2),
    decreases lines.len() - i,
{
    if 0 <= i < lines.len() {
        if lines[i].len() == 0 {
            if i + 1 < lines.len() {
                lemma_header_section_distinct(lines, i + 2, es, lines[i + 1]);
            }
        } else {
            let c = next_match(lines[i], ":"@, 0);
            if c >= 0 {
                let name = header_line_name(lines[i], c);
                let value = header_line_value(lines[i], c);
                lemma_insert_keeps_distinct(es, lowercase(name), encode_utf8(value));
                lemma_header_section_distinct(
                    lines,
                    i + 1,
                    insert_entry(es, lowercase(name), encode_utf8(value)),
                    body,
                );
            }
        }
    }
}

/// A parsed request never holds two headers with the same name.
pub proof fn lemma_parsed_headers_distinct(lines: Seq<Seq<char>>)
    ensures
        lines_outcome(lines) matches Some(Ok((m, p, es, b))) ==> distinct_names(es),
{
    lemma_header_section_distinct(lines, 1, Seq::empty(), Seq::empty());
}

/// The value the last header line named `n` (in lower case) gives, among the
/// header lines from index `i` on; `None` when no such line comes.
pub open spec fn last_header_value(lines: Seq<Seq<char>>, i: int, n: Seq<char>) -> Option<Seq<u8>>
    decreases lines.len() - i,
{
    if i < 0 || i >= lines.len() {
        None
    } else if lines[i].len() == 0 {
        if i + 1 >= lines.len() {
            None
        } else {
            last_header_value(lines, i + 2, n)
        }
    } else {
        let c = next_match(lines[i], ":"@, 0);
        if c < 0 {
            None
        } else {
            let later = last_header_value(lines, i + 1, n);
            if later is Some {
                later
            } else if lowercase(header_line_name(lines[i], c)) == n {
                Some(encode_utf8(header_line_value(lines[i], c)))
            } else {
                None
            }
        }
    }
}

/// Header lines from index `i` on leave, under each name, the value of the
/// last line with that name, or the value the name had before.
pub proof fn lemma_header_section_values(
    lines: Seq<Seq<char>>,
    i: int,
    es: Entries,
    body: Seq<char>,
    n: Seq<char>,
)
    requires
        distinct_names(es),
    ensures
        header_section(lines, i, es, body) matches Some(Ok((es2, b))) ==> first_value(es2, n)
            == (if last_header_value(lines, i, n) is Some {
            last_header_value(lines, i, n)
        } else {
            first_value(es, n)
        }),
    decreases lines.len() - i,
{
    if 0 <= i < lines.len() {
        if lines[i].len() == 0 {
            if i + 1 < lines.len() {
                lemma_header_section_values(lines, i + 2, es, lines[i + 1], n);
            }
        } else {
            let c = next_match(lines[i], ":"@, 0);
            if c >= 0 {
                let k = lowercase(header_line_name(lines[i], c));
                let v = encode_utf8(header_line_value(lines[i], c));
                let es1 = insert_entry(es, k, v);
                lemma_insert_keeps_distinct(es, k, v);
                lemma_header_section_values(lines, i + 1, es1, body, n);
                if n == k {
                    assert(k.push('x').len() != k.len());
                    lemma_insert_then_get(es, k, v, k.push('x'));
                } else {
                    lemma_insert_then_get(es, k, v, n);
                }
            }
        }
    }
}

/// In a parsed request, each header holds the value of the last header line
/// with its name (names compared in lower case), and a name no line gives is
/// absent.
pub proof fn lemma_parsed_header_value(lines: Seq<Seq<char>>, n: Seq<char>)
    ensures
        lines_outcome(lines) matches Some(Ok((m, p, es, b))) ==> first_value(es, n)
            == last_header_value(lines, 1, n),
{
    lemma_header_section_values(lines, 1, Seq::empty(), Seq::empty(), n);
    crate::headers::lemma_find_name_from(Seq::<(Seq<char>, Seq<u8>)>::empty(), n, 0);
}

/// What the header lines `hs` from index `j` on make of the headers `es`,
/// when none of them is empty: as `header_section`, with `None` for the inputs
/// on which the parse always panics.
pub open spec fn header_lines_from(hs: Seq<Seq<char>>, j: int, es: Entries) -> Option<
    Result<Entries, HeaderError>,
>
    decreases hs.len() - j,
{
    if j < 0 || j >= hs.len() {
        Some(Ok(es))
    } else {
        let c = next_match(hs[j], ":"@, 0);
        if c < 0 {
            Some(Err(HeaderError::InvalidHeaderValue))
        } else {
            let name = header_line_name(hs[j], c);
            let value = header_line_value(hs[j], c);
            if !valid_header_name(name) || !valid_header_value(encode_utf8(value)) {
                None
            } else {
                header_lines_from(hs, j + 1, insert_entry(es, lowercase(name), encode_utf8(value)))
            }
        }
    }
}

/// For the lines of a request line, non-empty header lines `hs`, an empty
/// line and a body `b`: the header section from header `j` on gives what the
/// header lines give, with `b` as the body.
pub proof fn lemma_header_section_of_lines(
    l: Seq<char>,
    hs: Seq<Seq<char>>,
    b: Seq<char>,
    j: int,
    es: Entries,
    body: Seq<char>,
)
    requires
        0 <= j <= hs.len(),
        forall|k: int| 0 <= k < hs.len() ==> (#[trigger] hs[k]).len() > 0,
    ensures
        header_section(seq![l] + hs + seq![Seq::<char>::empty(), b], 1 + j, es, body) == match header_lines_from(hs, j, es) {
            None => None,
            Some(Err(e)) => Some(Err(e)),
            Some(Ok(es2)) => Some(Ok::<(Entries, Seq<char>), HeaderError>((es2, b))),
        },
    decreases hs.len() - j,
{
    let lines = seq![l] + hs + seq![Seq::<char>::empty(), b];
    assert(lines.len() == hs.len() + 3);
    if j == hs.len() {
        assert(lines[1 + j] == Seq::<char>::empty());
        assert(lines[2 + j] == b);
        assert(header_section(lines, 3 + j, es, b) == Some(
            Ok::<(Entries, Seq<char>), HeaderError>((es, b)),
        ));
    } else {
        assert(hs[j].len() > 0);
        assert(lines[1 + j] == hs[j]);
        let c = next_match(hs[j], ":"@, 0);
        if c >= 0 {
            let name = header_line_name(hs[j], c);
            let value = header_line_value(hs[j], c);
            lemma_header_section_of_lines(
                l,
                hs,
                b,
                j + 1,
                insert_entry(es, lowercase(name), encode_utf8(value)),
                body,
            );
        }
    }
}

/// No method name holds a space.
proof fn lemma_method_name_no_space(m: Method)
    ensures
        forall|k: int| 0 <= k < m.name().len() ==> m.name()[k] != ' ',
{
    reveal_strlit("GET");
    reveal_strlit("POST");
    reveal_strlit("PUT");
    reveal_strlit("DELETE");
    assert("GET"@ =~= seq!['G', 'E', 'T']);
    assert("POST"@ =~= seq!['P', 'O', 'S', 'T']);
    assert("PUT"@ =~= seq!['P', 'U', 'T']);
    assert("DELETE"@ =~= seq!['D', 'E', 'L', 'E', 'T', 'E']);
}

/// A request line made of a method's name, a space, a target without spaces
/// that `http` accepts as a URI, a space, and anything at all parses to that
/// method and exactly the target's path as `Uri::path` gives it.
pub proof fn lemma_request_line_parts(m: Method, t: Seq<char>, v: Seq<char>, p: Seq<char>)
    requires
        forall|k: int| 0 <= k < t.len() ==> t[k] != ' ',
        uri_path_of(t) == Some(p),
    ensures
        request_line(m.name() + " "@ + t + " "@ + v) == Ok::<(Method, Seq<char>), HttpRequestError>(
            (m, p),
        ),
{
    reveal_strlit(" ");
    assert(" "@ =~= seq![' ']);
    let sp = seq![' '];
    let line = m.name() + " "@ + t + " "@ + v;
    lemma_method_name_no_space(m);
    lemma_method_name_round_trip(m, m.name());
    assert(line =~= m.name() + sp + (t + sp + v));
    lemma_split_at_char(m.name(), t + sp + v, ' ');
    lemma_split_at_char(t, v, ' ');
    let parts = split_by(line, " "@);
    assert(parts == seq![m.name()] + (seq![t] + split_by(v, sp)));
    assert(parts[0] == m.name());
    assert(parts[1] == t);
    assert(parts.len() >= 3);
}

/// A request of a request line, one header line `n: v` with a valid name,
/// an empty line and a body parses to that request line, the single header
/// `n` (in lower case) holding the whole text after the colon with only its
/// leading and trailing whitespace removed, and the body.
pub proof fn lemma_single_header_value(
    l: Seq<char>,
    n: Seq<char>,
    v: Seq<char>,
    b: Seq<char>,
    m: Method,
    p: Seq<char>,
)
    requires
        request_line(l) == Ok::<(Method, Seq<char>), HttpRequestError>((m, p)),
        valid_header_name(n),
        valid_header_value(encode_utf8(trim(v))),
    ensures
        lines_outcome(seq![l, n + ":"@ + v, Seq::<char>::empty(), b]) == Some(
            Ok::<(Method, Seq<char>, Entries, Seq<char>), LinesError>(
                (m, p, seq![(lowercase(n), encode_utf8(trim(v)))], b),
            ),
        ),
{
    reveal_strlit(":");
    assert(":"@ =~= seq![':']);
    let h = n + ":"@ + v;
    assert forall|k: int| 0 <= k < n.len() implies n[k] != ':' by {
        assert(crate::headers::is_token_char(n[k]));
    }
    assert forall|k: int| 0 <= k < n.len() implies !match_at(h, ":"@, k) by {
        if match_at(h, ":"@, k) {
            assert(h.subrange(k, k + 1)[0] == h[k]);
            assert(h[k] == n[k]);
        }
    }
    assert(h.subrange(n.len() as int, n.len() + 1int) =~= ":"@);
    lemma_next_match_exact(h, ":"@, 0, n.len() as int);
    assert(header_line_name(h, n.len() as int) =~= n);
    assert(h.subrange(n.len() + 1int, h.len() as int) =~= v);
    let hs = seq![h];
    assert(seq![l] + hs + seq![Seq::<char>::empty(), b] =~= seq![l, h, Seq::<char>::empty(), b]);
    lemma_header_section_of_lines(l, hs, b, 0, Seq::empty(), Seq::empty());
    lemma_find_name_from(Seq::<(Seq<char>, Seq<u8>)>::empty(), lowercase(n), 0);
    assert(header_lines_from(hs, 1, seq![(lowercase(n), encode_utf8(trim(v)))]) == Some(
        Ok::<Entries, HeaderError>(seq![(lowercase(n), encode_utf8(trim(v)))]),
    ));
    assert(insert_entry(Seq::empty(), lowercase(n), encode_utf8(trim(v))) =~= seq![
        (lowercase(n), encode_utf8(trim(v))),
    ]);
}

/// The text of each string.
pub open spec fn texts(data: Seq<String>) -> Seq<Seq<char>> {
    data.map_values(|s: String| s@)
}

/// A request: its request line, its headers and its body.
#[derive(Debug)]
pub struct HttpRequest {
    pub request: Request,
    pub headers: HeaderMap,
    pub body: String,
}

impl HttpRequest {
    /// The request line.
    pub fn get_req_ref(&self) -> (r: &Request)
        ensures
            *r == self.request,
    {
        &self.request
    }

    /// The headers.
    pub fn get_headers_ref(&self) -> (h: &HeaderMap)
        ensures
            *h == self.headers,
    {
        &self.headers
    }

    /// The headers, for changing them.
    pub fn get_headers_mut(&mut self) -> (h: &mut HeaderMap)
        ensures
            *h == old(self).headers,
            final(self).headers == *final(h),
            final(self).request == old(self).request,
            final(self).body == old(self).body,
    {
        &mut self.headers
    }

    /// The request line, for changing it.
    pub fn get_req_mut(&mut self) -> (r: &mut Request)
        ensures
            *r == old(self).request,
            final(self).request == *final(r),
            final(self).headers == old(self).headers,
            final(self).body == old(self).body,
    {
        &mut self.request
    }

    /// The body.
    pub fn get_body_content(&self) -> (b: &String)
        ensures
            *b == self.body,
    {
        &self.body
    }

    /// Parses a request given as lines: the request line first, then header
    /// lines, where an empty line is followed by the body. Returns `None` on
    /// the inputs on which the parse always panics (see `lines_outcome`), and
    /// when the header map cannot grow further, which happens only with more
    /// than `MAX_HEADER_ENTRIES + 1` lines.
    pub fn try_from_string_line_collection(data: Vec<String>) -> (res: Option<
        Result<HttpRequest, LinesError>,
    >)
        ensures
            lines_outcome(texts(data@)) is None ==> res is None,
            res is None ==> lines_outcome(texts(data@)) is None || data@.len()
                > MAX_HEADER_ENTRIES + 1,
            res matches Some(Ok(r)) ==> lines_outcome(texts(data@)) == Some(
                Ok::<(Method, Seq<char>, Entries, Seq<char>), LinesError>(
                    (r.request.method, r.request.path@, header_entries(r.headers), r.body@),
                ),
            ) && r.request.version == HTTPVersion::HTTP1_1,
            res matches Some(Err(e)) ==> lines_outcome(texts(data@)) == Some(
                Err::<(Method, Seq<char>, Entries, Seq<char>), LinesError>(e),
            ),
    {
        let ghost lines = texts(data@);
        if data.len() == 0 {
            return Some(Err(LinesError::MissingRequestLine));
        }
        assert(lines[0] == data@[0]@);
        let request = match Request::parse(data[0].as_str()) {
            Ok(r) => r,
            Err(e) => {
                return Some(Err(LinesError::InvalidRequestLine(e)));
            },
        };
        let colon = chars_of(":");
        proof {
            reveal_strlit(":");
        }
        let mut headers = header_map_new();
        let mut body = String::new();
        let mut i: usize = 1;
        while i < data.len()
            invariant
                1 <= i,
                lines == texts(data@),
                data@.len() > 0,
                request_line(lines[0]) == Ok::<(Method, Seq<char>), HttpRequestError>(
                    (request.method, request.path@),
                ),
                request.version == HTTPVersion::HTTP1_1,
                colon@ == ":"@,
                colon@.len() == 1,
                header_section(lines, 1, Seq::empty(), Seq::empty()) == header_section(
                    lines,
                    i as int,
                    header_entries(headers),
                    body@,
                ),
                header_entries(headers).len() < i,
            decreases data.len() - i,
        {
            let line = chars_of(data[i].as_str());
            assert(line@ == lines[i as int]);
            if line.len() == 0 {
                if i + 1 >= data.len() {
                    return None;
                }
                body = data[i + 1].clone();
                i = i + 2;
            } else {
                let c = match find_from(&line, &colon, 0) {
                    Some(c) => c,
                    None => {
                        return Some(Err(LinesError::InvalidHeader(HeaderError::InvalidHeaderValue)));
                    },
                };
                proof {
                    lemma_next_match(line@, colon@, 0);
                }
                let name = string_of(&sub_chars(&line, 0, c));
                let rest = sub_chars(&line, c + 1, line.len());
                let value = string_of(&trim_chars(&rest));
                if parse_header_name(name.as_str()).is_none() {
                    return None;
                }
                if !header_value_accepts(value.as_str()) {
                    return None;
                }
                proof {
                    lemma_insert_len(
                        header_entries(headers),
                        lowercase(name@),
                        encode_utf8(value@),
                    );
                }
                if !header_map_try_insert(&mut headers, name.as_str(), value.as_str()) {
                    return None;
                }
                i = i + 1;
            }
        }
        Some(Ok(HttpRequest { request, headers, body }))
    }

    /// Parses a request given as lines (see `try_from_string_line_collection`),
    /// for inputs on which the parse does not panic: none of the panics of
    /// `lines_outcome`, and few enough lines that the header map never has to
    /// grow past `http`'s size limit.
    pub fn from_string_line_collection(data: Vec<String>) -> (res: Result<HttpRequest, LinesError>)
        requires
            lines_outcome(texts(data@)) is Some,
            data@.len() <= MAX_HEADER_ENTRIES + 1,
        ensures
            res matches Ok(r) ==> lines_outcome(texts(data@)) == Some(
                Ok::<(Method, Seq<char>, Entries, Seq<char>), LinesError>(
                    (r.request.method, r.request.path@, header_entries(r.headers), r.body@),
                ),
            ) && r.request.version == HTTPVersion::HTTP1_1,
            res matches Err(e) ==> lines_outcome(texts(data@)) == Some(
                Err::<(Method, Seq<char>, Entries, Seq<char>), LinesError>(e),
            ),
    {
        match HttpRequest::try_from_string_line_collection(data) {
            Some(res) => res,
            None => Err(LinesError::MissingRequestLine),
        }
    }
}

// ---------------------------------------------------------------------------
// Responses
// ---------------------------------------------------------------------------

/// A response: version, status code, headers and body.
pub struct Response<B> {
    pub version: ProtocolVersion,
    pub status: u16,
    pub headers: HeaderMap,
    pub body: B,
}

impl<B> Response<B> {
    /// A status code `http` accepts, and room for the headers the renderer
    /// may add.
    pub open spec fn wf(&self) -> bool {
        100 <= self.status <= 999 && header_entries(self.headers).len() <= MAX_HEADER_ENTRIES
    }

    /// A status code `http` accepts, and headers the renderer can complete:
    /// either a content type is present (nothing is inserted) or there is room
    /// to insert one.
    pub open spec fn renderable(&self) -> bool {
        &&& 100 <= self.status <= 999
        &&& (first_value(header_entries(self.headers), "content-type"@) is Some || header_entries(
            self.headers,
        ).len() <= MAX_HEADER_ENTRIES)
    }

    /// A `200 OK` HTTP/1.1 response with no headers and the given body
    /// (`http::Response::new`, and `Response::default` with the body set).
    pub fn new(body: B) -> (r: Response<B>)
        ensures
            r.version == ProtocolVersion::Http11,
            r.status == 200,
            header_entries(r.headers) == Seq::<(Seq<char>, Seq<u8>)>::empty(),
            r.body == body,
            r.wf(),
    {
        Response { version: ProtocolVersion::Http11, status: 200, headers: header_map_new(), body }
    }

    /// The number of header values the response holds.
    pub fn header_count(&self) -> (n: usize)
        ensures
            n == header_entries(self.headers).len(),
    {
        header_map_len(&self.headers)
    }

    /// Sets the header `name` (any case; it is stored in lower case) to
    /// `value`, replacing the values it had.
    pub fn set_header(&mut self, name: &str, value: &str)
        requires
            valid_header_name(name@),
            valid_header_value(encode_utf8(value@)),
            header_entries(old(self).headers).len() < MAX_HEADER_ENTRIES,
        ensures
            header_entries(final(self).headers) == insert_entry(
                header_entries(old(self).headers),
                lowercase(name@),
                encode_utf8(value@),
            ),
            header_entries(final(self).headers).len() <= header_entries(old(self).headers).len() + 1,
            final(self).version == old(self).version,
            final(self).status == old(self).status,
            final(self).body == old(self).body,
    {
        proof {
            lemma_insert_len(header_entries(self.headers), lowercase(name@), encode_utf8(value@));
        }
        header_map_insert(&mut self.headers, name, value);
    }
}

/// Inserting adds at most one entry.
pub proof fn lemma_insert_len(es: Entries, k: Seq<char>, v: Seq<u8>)
    ensures
        insert_entry(es, k, v).len() <= es.len() + 1,
{
    lemma_find_name_from(es, k, 0);
    let i = find_name(es, k);
    if i >= 0 {
        lemma_drop_name_len(es.skip(i + 1), k);
    }
}

/// Dropping a name never lengthens the entries.
pub proof fn lemma_drop_name_len(es: Entries, k: Seq<char>)
    ensures
        drop_name(es, k).len() <= es.len(),
    decreases es.len(),
{
    if es.len() > 0 {
        lemma_drop_name_len(es.drop_first(), k);
    }
}

/// The response for a served page: `200 OK` with the body `" "`.
pub fn create_data_response() -> (r: Response<String>)
    ensures
        r.version == ProtocolVersion::Http11,
        r.status == 200,
        header_entries(r.headers) == Seq::<(Seq<char>, Seq<u8>)>::empty(),
        r.body@ == " "@,
        r.wf(),
{
    Response::new(" ".to_owned())
}

/// The response for a refused request: `404 Not Found` with the body
/// `"Invalid request"`.
pub fn create_err_response() -> (r: Response<String>)
    ensures
        r.version == ProtocolVersion::Http11,
        r.status == 404,
        header_entries(r.headers) == Seq::<(Seq<char>, Seq<u8>)>::empty(),
        r.body@ == "Invalid request"@,
        r.wf(),
{
    let mut r = Response::new("Invalid request".to_owned());
    r.status = 404;
    r
}

} // verus!
