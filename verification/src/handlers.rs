//! Rendering responses as raw HTTP text, turning received text into request
//! lines, and choosing what to answer for a request.
use crate::headers::{
    first_value, header_entries, header_map_entries, header_map_get, header_map_insert,
    header_map_remove, insert_entry, is_token_char, lowercase, normalized_header_name,
    remove_entry, distinct_names, valid_header_value, value_text,
    value_text_chars, visible_byte, MAX_HEADER_ENTRIES,
};
use crate::error::LinesError;
use crate::objects::{
    header_lines_from, lemma_header_section_of_lines, lines_outcome, request_line, Entries,
    HttpRequest, Method, Response,
};
use crate::protocol::{canonical_reason, decode_lossy, status_reason, str_from_utf8, utf8_lossy, ProtocolVersion};
use crate::text::{
    chars_of, contains, contains_chars, decimal, decimal_chars, last_segment,
    last_segment_start, lemma_last_index_of, push_chars, push_str,
    split_by, split_chars, string_of, sub_chars, join, crlf, blank_line, lemma_crlf,
    lemma_split_head_body, lemma_split_joined_lines,
};
use http::HeaderMap;
use vstd::prelude::*;
use vstd::utf8::{decode_utf8, encode_utf8, valid_utf8, is_ascii_chars, is_ascii_chars_encode_utf8};

verus! {

// ---------------------------------------------------------------------------
// Rendering
// ---------------------------------------------------------------------------

/// The reason phrase written in a status line (empty when `http` knows none).
pub open spec fn reason_text(status: u16) -> Seq<char> {
    match status_reason(status) {
        Some(r) => r,
        None => Seq::empty(),
    }
}

/// The status line: version, code and reason phrase.
pub open spec fn status_line(version: ProtocolVersion, status: u16) -> Seq<char> {
    version.spec_text() + " "@ + decimal(status as nat) + " "@ + reason_text(status) + "\r\n"@
}

/// One `name: value` line per header entry, in order.
pub open spec fn header_block(es: Entries) -> Seq<char>
    decreases es.len(),
{
    if es.len() == 0 {
        Seq::empty()
    } else {
        header_block(es.drop_last()) + es.last().0 + ": "@ + value_text(es.last().1) + "\r\n"@
    }
}

/// The headers as rendered: `content-type: text/plain` is added when the
/// response has no content type.
pub open spec fn with_content_type(es: Entries) -> Entries {
    if first_value(es, "content-type"@) is Some {
        es
    } else {
        insert_entry(es, "content-type"@, encode_utf8("text/plain"@))
    }
}

/// A response as raw HTTP text: the status line, the header lines, a
/// `Content-Length` line giving `body_len`, a blank line, the body and
/// `tail`.
pub open spec fn raw_response(
    version: ProtocolVersion,
    status: u16,
    es: Entries,
    body: Seq<char>,
    body_len: nat,
    tail: Seq<char>,
) -> Seq<char> {
    status_line(version, status) + header_block(with_content_type(es)) + "Content-Length: "@
        + decimal(body_len) + "\r\n\r\n"@ + body + tail
}

/// `r` ends with `suffix`.
pub open spec fn ends_with(r: Seq<char>, suffix: Seq<char>) -> bool {
    r.len() >= suffix.len() && r.subrange(r.len() - suffix.len(), r.len() as int) == suffix
}

/// `r` starts with `prefix`.
pub open spec fn starts_with(r: Seq<char>, prefix: Seq<char>) -> bool {
    r.len() >= prefix.len() && r.subrange(0, prefix.len() as int) == prefix
}

/// Every rendered response starts with its version, code and a space, and
/// ends with the `Content-Length` line giving `body_len`, the blank line, the
/// whole body and the tail: nothing of the body is dropped or cut.
pub proof fn lemma_rendered_shape(
    version: ProtocolVersion,
    status: u16,
    es: Entries,
    body: Seq<char>,
    body_len: nat,
    tail: Seq<char>,
)
    ensures
        starts_with(
            raw_response(version, status, es, body, body_len, tail),
            version.spec_text() + " "@ + decimal(status as nat) + " "@,
        ),
        ends_with(
            raw_response(version, status, es, body, body_len, tail),
            "Content-Length: "@ + decimal(body_len) + "\r\n\r\n"@ + body + tail,
        ),
{
    let r = raw_response(version, status, es, body, body_len, tail);
    let pre = version.spec_text() + " "@ + decimal(status as nat) + " "@;
    let rest = reason_text(status) + "\r\n"@ + header_block(with_content_type(es));
    let suf = "Content-Length: "@ + decimal(body_len) + "\r\n\r\n"@ + body + tail;
    assert(r =~= pre + (rest + suf));
    assert(r.subrange(0, pre.len() as int) =~= pre);
    assert(r =~= (pre + rest) + suf);
    assert(r.subrange(r.len() - suf.len(), r.len() as int) =~= suf);
}

/// Printable ASCII text is a valid header value and renders as itself.
pub proof fn lemma_printable_value(s: Seq<char>)
    requires
        forall|k: int| 0 <= k < s.len() ==> 32 <= ((#[trigger] s[k]) as u32) < 127,
    ensures
        valid_header_value(encode_utf8(s)),
        value_text(encode_utf8(s)) == s,
{
    assert(is_ascii_chars(s)) by {
        assert forall|k: int| 0 <= k < s.len() implies '\0' <= s[k] && s[k] <= '\u{7f}' by {
            lemma_ascii_char(s[k]);
        }
    }
    is_ascii_chars_encode_utf8(s);
    let b = encode_utf8(s);
    assert forall|k: int| 0 <= k < b.len() implies visible_byte(#[trigger] b[k]) by {
        assert(s[k] as u8 == b[k]);
    }
    assert(b.map_values(|x: u8| x as char) =~= s) by {
        assert forall|k: int| 0 <= k < s.len() implies b.map_values(|x: u8| x as char)[k]
            == s[k] by {
            assert(s[k] as u8 == b[k]);
        }
    }
}

/// A character below 127 is ASCII.
proof fn lemma_ascii_char(c: char)
    requires
        (c as u32) < 127,
    ensures
        '\0' <= c <= '\u{7f}',
{
}

/// The name `content-type` as the map stores it.
proof fn lemma_content_type_name()
    ensures
        normalized_header_name("content-type"@),
        valid_header_value(encode_utf8("text/plain"@)),
        value_text(encode_utf8("text/plain"@)) == "text/plain"@,
{
    reveal_strlit("content-type");
    reveal_strlit("text/plain");
    let n = "content-type"@;
    assert(n.len() == 12);
    assert forall|k: int| 0 <= k < n.len() implies is_token_char(#[trigger] n[k]) && 97 <= (
    n[k] as u32) <= 122 || n[k] == '-' by {}
    assert(lowercase(n) =~= n);
    lemma_printable_value("text/plain"@);
}

/// Renders a response. When the headers hold no content type,
/// `content-type: text/plain` is inserted into them first.
fn render(
    version: ProtocolVersion,
    status: u16,
    headers: &mut HeaderMap,
    body: &Vec<char>,
    body_len: usize,
    tail: &str,
) -> (out: Vec<char>)
    requires
        100 <= status <= 999,
        first_value(header_entries(*old(headers)), "content-type"@) is Some || header_entries(
            *old(headers),
        ).len() <= MAX_HEADER_ENTRIES,
    ensures
        out@ == raw_response(
            version,
            status,
            header_entries(*old(headers)),
            body@,
            body_len as nat,
            tail@,
        ),
        header_entries(*final(headers)) == with_content_type(header_entries(*old(headers))),
{
    let ghost es0 = header_entries(*headers);
    let mut out: Vec<char> = Vec::new();
    push_str(&mut out, version.text());
    push_str(&mut out, " ");
    push_chars(&mut out, &decimal_chars(status as u64));
    push_str(&mut out, " ");
    match canonical_reason(status) {
        Some(r) => push_str(&mut out, r),
        None => {},
    }
    push_str(&mut out, "\r\n");
    assert(out@ =~= status_line(version, status));
    proof {
        lemma_content_type_name();
    }
    if header_map_get(headers, "content-type").is_none() {
        header_map_insert(headers, "content-type", "text/plain");
    }
    let entries = header_map_entries(headers);
    let ghost es = header_entries(*headers);
    assert(es == with_content_type(es0));
    let mut i: usize = 0;
    while i < entries.len()
        invariant
            i <= entries.len(),
            entries@.len() == es.len(),
            forall|k: int|
                0 <= k < entries@.len() ==> (#[trigger] entries@[k]).0@ == es[k].0
                    && entries@[k].1@ == es[k].1,
            out@ == status_line(version, status) + header_block(es.take(i as int)),
        decreases entries.len() - i,
    {
        let ghost before = out@;
        push_str(&mut out, entries[i].0.as_str());
        push_str(&mut out, ": ");
        push_chars(&mut out, &value_text_chars(&entries[i].1));
        push_str(&mut out, "\r\n");
        assert(es.take(i + 1).drop_last() =~= es.take(i as int));
        assert(out@ =~= status_line(version, status) + header_block(es.take(i + 1)));
        i = i + 1;
    }
    assert(es.take(i as int) =~= es);
    push_str(&mut out, "Content-Length: ");
    push_chars(&mut out, &decimal_chars(body_len as u64));
    push_str(&mut out, "\r\n\r\n");
    push_chars(&mut out, body);
    push_str(&mut out, tail);
    assert(out@ =~= raw_response(version, status, es0, body@, body_len as nat, tail@));
    out
}

/// Every rendered response carries a content type: the one it had, or
/// `text/plain`.
pub proof fn lemma_rendered_content_type(es: Entries)
    ensures
        first_value(es, "content-type"@) is Some ==> with_content_type(es) == es,
        first_value(es, "content-type"@) is None ==> first_value(
            with_content_type(es),
            "content-type"@,
        ) == Some(encode_utf8("text/plain"@)),
{
    if first_value(es, "content-type"@) is None {
        crate::headers::lemma_find_name_from(es, "content-type"@, 0);
        let es2 = with_content_type(es);
        crate::headers::lemma_find_name_from(es2, "content-type"@, 0);
        assert(es2 == es.push(("content-type"@, encode_utf8("text/plain"@))));
        assert(es2[es.len() as int].0 == "content-type"@);
    }
}

/// Renders a response whose body is text: status line, headers (with
/// `content-type: text/plain` added when there is none), `Content-Length`
/// giving the body's length in bytes, a blank line, the body and a final
/// newline.
pub fn response_to_raw_string(response: Response<String>) -> (raw: String)
    requires
        response.renderable(),
    ensures
        raw@ == raw_response(
            response.version,
            response.status,
            header_entries(response.headers),
            response.body@,
            encode_utf8(response.body@).len(),
            "\n"@,
        ),
        starts_with(
            raw@,
            response.version.spec_text() + " "@ + decimal(response.status as nat) + " "@,
        ),
        ends_with(
            raw@,
            "Content-Length: "@ + decimal(encode_utf8(response.body@).len()) + "\r\n\r\n"@
                + response.body@ + "\n"@,
        ),
{
    let mut response = response;
    let body = chars_of(response.body.as_str());
    let body_len = response.body.as_str().as_bytes().len();
    let ghost status = response.status;
    let ghost version = response.version;
    let ghost es = header_entries(response.headers);
    let out = render(response.version, response.status, &mut response.headers, &body, body_len, "\n");
    proof {
        lemma_rendered_shape(version, status, es, body@, body_len as nat, "\n"@);
    }
    string_of(&out)
}

/// Renders a response whose body is bytes holding UTF-8 text: as
/// `response_to_raw_string`, with no final newline.
pub fn response_raw_vec(response: Response<Vec<u8>>) -> (raw: String)
    requires
        response.renderable(),
        valid_utf8(response.body@),
    ensures
        raw@ == raw_response(
            response.version,
            response.status,
            header_entries(response.headers),
            decode_utf8(response.body@),
            response.body@.len(),
            Seq::empty(),
        ),
        starts_with(
            raw@,
            response.version.spec_text() + " "@ + decimal(response.status as nat) + " "@,
        ),
        ends_with(
            raw@,
            "Content-Length: "@ + decimal(response.body@.len()) + "\r\n\r\n"@ + decode_utf8(
                response.body@,
            ),
        ),
{
    let mut response = response;
    let text = match str_from_utf8(response.body.as_slice()) {
        Some(t) => t,
        None => {
            return String::new();
        },
    };
    proof {
        vstd::utf8::encode_utf8_decode_utf8(text@);
    }
    let body = chars_of(text);
    let body_len = response.body.len();
    let ghost status = response.status;
    let ghost version = response.version;
    let ghost es = header_entries(response.headers);
    let out = render(response.version, response.status, &mut response.headers, &body, body_len, "");
    assert(""@ =~= Seq::<char>::empty()) by {
        reveal_strlit("");
    }
    proof {
        lemma_rendered_shape(version, status, es, body@, body_len as nat, Seq::empty());
        assert(body@ + Seq::<char>::empty() =~= body@);
        assert("Content-Length: "@ + decimal(body_len as nat) + "\r\n\r\n"@ + body@ + Seq::<char>::empty()
            =~= "Content-Length: "@ + decimal(body_len as nat) + "\r\n\r\n"@ + body@);
    }
    string_of(&out)
}

/// The raw `200 OK` response carrying `buffer` (which must hold UTF-8 text)
/// as its body, as bytes.
pub fn process_buffer_to_response_buffer(buffer: Vec<u8>) -> (out: Vec<u8>)
    requires
        valid_utf8(buffer@),
    ensures
        out@ == encode_utf8(
            raw_response(
                ProtocolVersion::Http11,
                200,
                Seq::empty(),
                decode_utf8(buffer@),
                buffer@.len(),
                Seq::empty(),
            ),
        ),
{
    let response = Response::new(buffer);
    let raw = response_raw_vec(response);
    vstd::slice::slice_to_vec(raw.as_str().as_bytes())
}

// ---------------------------------------------------------------------------
// Paths
// ---------------------------------------------------------------------------

/// The last segment of a request path: the part after its last `/`, or the
/// whole path when it holds none.
pub fn get_path_name(val: String) -> (name: String)
    ensures
        name@ == last_segment(val@),
        !name@.contains('/'),
        val@ == val@.take(val@.len() - name@.len()) + name@,
        name@.len() < val@.len() ==> val@[val@.len() - name@.len() - 1] == '/',
{
    let cs = chars_of(val.as_str());
    let start = last_segment_start(&cs);
    let name = sub_chars(&cs, start, cs.len());
    proof {
        lemma_last_index_of(val@, '/');
        assert(val@ =~= val@.take(val@.len() - name@.len()) + name@);
        assert forall|k: int| 0 <= k < name@.len() implies name@[k] != '/' by {
            assert(name@[k] == val@[start + k]);
        }
    }
    string_of(&name)
}

// ---------------------------------------------------------------------------
// Received text
// ---------------------------------------------------------------------------

/// The bytes of `buf` other than NUL.
pub open spec fn without_nul(buf: Seq<u8>) -> Seq<u8>
    decreases buf.len(),
{
    if buf.len() == 0 {
        buf
    } else if buf.last() == 0 {
        without_nul(buf.drop_last())
    } else {
        without_nul(buf.drop_last()).push(buf.last())
    }
}

/// No NUL byte is left once they are dropped.
proof fn lemma_without_nul_no_zero(buf: Seq<u8>)
    ensures
        !without_nul(buf).contains(0u8),
    decreases buf.len(),
{
    if buf.len() > 0 {
        lemma_without_nul_no_zero(buf.drop_last());
        let w = without_nul(buf.drop_last());
        if buf.last() != 0 {
            assert forall|k: int| 0 <= k < w.push(buf.last()).len() implies w.push(buf.last())[k]
                != 0u8 by {
                if k < w.len() {
                    assert(w.push(buf.last())[k] == w[k]);
                }
            }
        }
    }
}

/// The text of a received chunk: its NUL bytes dropped, the rest read as
/// UTF-8 with invalid sequences replaced.
pub fn decode_chunk(buf: &[u8]) -> (text: String)
    ensures
        text@ == utf8_lossy(without_nul(buf@)),
        valid_utf8(without_nul(buf@)) ==> text@ == decode_utf8(without_nul(buf@)),
        !text@.contains('\0'),
{
    let mut kept: Vec<u8> = Vec::new();
    let mut i: usize = 0;
    while i < buf.len()
        invariant
            i <= buf@.len(),
            kept@ == without_nul(buf@.take(i as int)),
        decreases buf.len() - i,
    {
        assert(buf@.take(i + 1).drop_last() =~= buf@.take(i as int));
        if buf[i] != 0 {
            kept.push(buf[i]);
        }
        i = i + 1;
    }
    assert(buf@.take(i as int) =~= buf@);
    proof {
        lemma_without_nul_no_zero(buf@);
    }
    decode_lossy(kept.as_slice())
}

/// The request lines of a received request: the text is cut at each blank
/// line (`\r\n\r\n`); the head (the first piece) is cut into lines at each
/// `\r\n`, followed by an empty line and the body (the last piece). `None`
/// when the text holds no blank line.
pub open spec fn request_lines(text: Seq<char>) -> Option<Seq<Seq<char>>> {
    let parts = split_by(text, "\r\n\r\n"@);
    if parts.len() < 2 {
        None
    } else {
        Some(split_by(parts[0], "\r\n"@) + seq![Seq::<char>::empty(), parts.last()])
    }
}

/// Cuts received text into request lines (see `request_lines`).
pub fn split_request_text(text: &str) -> (lines: Option<Vec<String>>)
    ensures
        lines is None <==> request_lines(text@) is None,
        lines matches Some(ls) ==> request_lines(text@) == Some(
            ls@.map_values(|s: String| s@),
        ),
{
    let cs = chars_of(text);
    let blank = chars_of("\r\n\r\n");
    let crlf = chars_of("\r\n");
    proof {
        reveal_strlit("\r\n\r\n");
        reveal_strlit("\r\n");
    }
    let parts = split_chars(&cs, &blank);
    if parts.len() < 2 {
        return None;
    }
    let head = split_chars(&parts[0], &crlf);
    let ghost spec_lines = request_lines(text@)->0;
    let mut out: Vec<String> = Vec::new();
    let mut i: usize = 0;
    while i < head.len()
        invariant
            i <= head@.len(),
            parts@.len() >= 2,
            head@.len() == split_by(parts@[0]@, crlf@).len(),
            forall|k: int| 0 <= k < head@.len() ==> #[trigger] head@[k]@ == split_by(
                parts@[0]@,
                crlf@,
            )[k],
            out@.map_values(|s: String| s@) == split_by(parts@[0]@, crlf@).take(i as int),
        decreases head.len() - i,
    {
        let line = string_of(&head[i]);
        let ghost before = out@;
        out.push(line);
        assert(out@ == before.push(line));
        assert(line@ == split_by(parts@[0]@, crlf@)[i as int]);
        assert(split_by(parts@[0]@, crlf@).take(i + 1) =~= split_by(parts@[0]@, crlf@).take(
            i as int,
        ).push(line@));
        assert(out@.map_values(|s: String| s@) =~= split_by(parts@[0]@, crlf@).take(i + 1));
        i = i + 1;
    }
    out.push(String::new());
    let body = string_of(&parts[parts.len() - 1]);
    out.push(body);
    assert(split_by(parts@[0]@, crlf@).take(i as int) =~= split_by(parts@[0]@, crlf@));
    assert(out@.map_values(|s: String| s@) =~= split_by(parts@[0]@, crlf@) + seq![
        Seq::<char>::empty(),
        split_by(cs@, blank@).last(),
    ]);
    Some(out)
}


/// The bytes of the chunks, one after another.
pub open spec fn join_chunks(chunks: Seq<Seq<u8>>) -> Seq<u8>
    decreases chunks.len(),
{
    if chunks.len() == 0 {
        Seq::empty()
    } else {
        join_chunks(chunks.drop_last()) + chunks.last()
    }
}

/// The texts of the chunks, each decoded on its own (NUL bytes dropped), one
/// after another: what the server gathers from successive reads.
pub open spec fn chunk_texts(chunks: Seq<Seq<u8>>) -> Seq<char>
    decreases chunks.len(),
{
    if chunks.len() == 0 {
        Seq::empty()
    } else {
        chunk_texts(chunks.drop_last()) + decode_utf8(without_nul(chunks.last()))
    }
}

/// Dropping NUL bytes commutes with joining.
proof fn lemma_without_nul_concat(a: Seq<u8>, b: Seq<u8>)
    ensures
        without_nul(a + b) == without_nul(a) + without_nul(b),
    decreases b.len(),
{
    if b.len() == 0 {
        assert(a + b =~= a);
        assert(without_nul(a) + without_nul(b) =~= without_nul(a));
    } else {
        assert((a + b).drop_last() =~= a + b.drop_last());
        lemma_without_nul_concat(a, b.drop_last());
        if b.last() == 0 {
        } else {
            assert(without_nul(a) + without_nul(b.drop_last()).push(b.last()) =~= (without_nul(a)
                + without_nul(b.drop_last())).push(b.last()));
        }
    }
}

/// UTF-8 encoding commutes with joining.
proof fn lemma_encode_concat(x: Seq<char>, y: Seq<char>)
    ensures
        encode_utf8(x + y) == encode_utf8(x) + encode_utf8(y),
    decreases x.len(),
{
    if x.len() == 0 {
        assert(x + y =~= y);
        assert(encode_utf8(x) + encode_utf8(y) =~= encode_utf8(y));
    } else {
        assert((x + y).drop_first() =~= x.drop_first() + y);
        assert((x + y)[0] == x[0]);
        lemma_encode_concat(x.drop_first(), y);
        assert(encode_utf8(x + y) =~= encode_utf8(x) + encode_utf8(y));
    }
}

/// Valid UTF-8 joined with valid UTF-8 is valid, and decodes to the two
/// texts joined.
pub proof fn lemma_decode_concat(a: Seq<u8>, b: Seq<u8>)
    requires
        valid_utf8(a),
        valid_utf8(b),
    ensures
        valid_utf8(a + b),
        decode_utf8(a + b) == decode_utf8(a) + decode_utf8(b),
{
    let x = decode_utf8(a);
    let y = decode_utf8(b);
    vstd::utf8::decode_utf8_encode_utf8(a);
    vstd::utf8::decode_utf8_encode_utf8(b);
    lemma_encode_concat(x, y);
    vstd::utf8::encode_utf8_valid_utf8(x + y);
    vstd::utf8::encode_utf8_decode_utf8(x + y);
}

/// Decoding chunk by chunk gives the text of all the bytes decoded at once,
/// as long as each chunk (without its NUL bytes) is valid UTF-8 on its own.
pub proof fn lemma_chunk_texts(chunks: Seq<Seq<u8>>)
    requires
        forall|k: int| 0 <= k < chunks.len() ==> valid_utf8(without_nul(#[trigger] chunks[k])),
    ensures
        valid_utf8(without_nul(join_chunks(chunks))),
        chunk_texts(chunks) == decode_utf8(without_nul(join_chunks(chunks))),
    decreases chunks.len(),
{
    if chunks.len() == 0 {
        assert(without_nul(Seq::<u8>::empty()) =~= Seq::<u8>::empty());
        assert(decode_utf8(Seq::<u8>::empty()) =~= Seq::<char>::empty());
    } else {
        let init = chunks.drop_last();
        assert forall|k: int| 0 <= k < init.len() implies valid_utf8(
            without_nul(#[trigger] init[k]),
        ) by {
            assert(init[k] == chunks[k]);
        }
        lemma_chunk_texts(init);
        assert(valid_utf8(without_nul(chunks[chunks.len() - 1])));
        lemma_without_nul_concat(join_chunks(init), chunks.last());
        lemma_decode_concat(without_nul(join_chunks(init)), without_nul(chunks.last()));
    }
}

/// The request lines depend only on the bytes received, not on how the reads
/// cut them into chunks (when each chunk is valid UTF-8 on its own, as ASCII
/// chunks are).
pub proof fn lemma_chunking_irrelevant(c1: Seq<Seq<u8>>, c2: Seq<Seq<u8>>)
    requires
        forall|k: int| 0 <= k < c1.len() ==> valid_utf8(without_nul(#[trigger] c1[k])),
        forall|k: int| 0 <= k < c2.len() ==> valid_utf8(without_nul(#[trigger] c2[k])),
        join_chunks(c1) == join_chunks(c2),
    ensures
        chunk_texts(c1) == chunk_texts(c2),
        request_lines(chunk_texts(c1)) == request_lines(chunk_texts(c2)),
{
    lemma_chunk_texts(c1);
    lemma_chunk_texts(c2);
}

/// A request sent as a request line and header lines (non-empty, without
/// `\r\n`) joined with `\r\n`, a blank line and a body without a blank line
/// cuts into those lines, an empty line and the whole body; and parsing them
/// gives the request line's method and path, the headers the header lines
/// make, and that body.
pub proof fn lemma_request_from_text(l: Seq<char>, hs: Seq<Seq<char>>, b: Seq<char>)
    requires
        l.len() > 0,
        !contains(l, "\r\n"@),
        forall|k: int| 0 <= k < hs.len() ==> (#[trigger] hs[k]).len() > 0 && !contains(hs[k], "\r\n"@),
        !contains(b, "\r\n\r\n"@),
    ensures
        request_lines(join(seq![l] + hs, "\r\n"@) + "\r\n\r\n"@ + b) == Some(
            seq![l] + hs + seq![Seq::<char>::empty(), b],
        ),
        lines_outcome(seq![l] + hs + seq![Seq::<char>::empty(), b]) == match request_line(l) {
            Err(e) => Some(Err(LinesError::InvalidRequestLine(e))),
            Ok((m, p)) => match header_lines_from(hs, 0, Seq::empty()) {
                None => None,
                Some(Err(e)) => Some(Err(LinesError::InvalidHeader(e))),
                Some(Ok(es)) => Some(
                    Ok::<(Method, Seq<char>, Entries, Seq<char>), LinesError>((m, p, es, b)),
                ),
            },
        },
{
    lemma_crlf();
    let xs = seq![l] + hs;
    assert forall|k: int| 0 <= k < xs.len() implies (#[trigger] xs[k]).len() > 0 && !contains(
        xs[k],
        crlf(),
    ) by {
        if k > 0 {
            assert(xs[k] == hs[k - 1]);
        }
    }
    lemma_split_head_body(xs, b);
    lemma_split_joined_lines(xs);
    let text = join(xs, crlf()) + blank_line() + b;
    assert(split_by(text, blank_line()).last() == b);
    assert(request_lines(text) == Some(xs + seq![Seq::<char>::empty(), b]));
    let lines = seq![l] + hs + seq![Seq::<char>::empty(), b];
    assert(lines[0] == l);
    lemma_header_section_of_lines(l, hs, b, 0, Seq::empty(), Seq::empty());
}

// ---------------------------------------------------------------------------
// Routing
// ---------------------------------------------------------------------------

/// What the server does with a request.
#[derive(Debug, Clone, Copy, PartialEq, Eq, Structural)]
pub enum Route {
    /// Store the body as a file named by the path's last segment.
    Upload,
    /// Send the file named by the path's last segment.
    Download,
    /// Send the index page.
    Index,
    /// Send back the path's last segment.
    Echo,
    /// Send back the `user-agent` header.
    UserAgent,
    /// Refuse the request.
    NotFound,
}

/// The route for a request path and method: `/file` paths upload on `POST`
/// and download on `GET`; `/` and `/index.html` are the index; then paths
/// holding `/echo`, then `/user-agent`; anything else is refused.
pub open spec fn route_of(path: Seq<char>, method: Method) -> Route {
    if contains(path, "/file"@) && method == Method::POST {
        Route::Upload
    } else if contains(path, "/file"@) && method == Method::GET {
        Route::Download
    } else if path == "/index.html"@ || path == "/"@ {
        Route::Index
    } else if contains(path, "/echo"@) {
        Route::Echo
    } else if contains(path, "/user-agent"@) {
        Route::UserAgent
    } else {
        Route::NotFound
    }
}

/// Which route a request takes: a path holding `/file` uploads on `POST` and
/// downloads on `GET`, whatever else it holds; otherwise `/` and
/// `/index.html` are the index, a path holding `/echo` echoes, one holding
/// `/user-agent` echoes the user agent, and any other is refused. Upload and
/// download are reached only through `/file`.
pub proof fn lemma_route_priority(path: Seq<char>, method: Method)
    ensures
        contains(path, "/file"@) && method == Method::POST ==> route_of(path, method)
            == Route::Upload,
        contains(path, "/file"@) && method == Method::GET ==> route_of(path, method)
            == Route::Download,
        route_of(path, method) == Route::Upload ==> contains(path, "/file"@) && method
            == Method::POST,
        route_of(path, method) == Route::Download ==> contains(path, "/file"@) && method
            == Method::GET,
        !(contains(path, "/file"@) && (method == Method::GET || method == Method::POST)) ==> {
            &&& (path == "/"@ || path == "/index.html"@) ==> route_of(path, method) == Route::Index
            &&& (path != "/"@ && path != "/index.html"@ && contains(path, "/echo"@))
                ==> route_of(path, method) == Route::Echo
            &&& (path != "/"@ && path != "/index.html"@ && !contains(path, "/echo"@) && contains(
                path,
                "/user-agent"@,
            )) ==> route_of(path, method) == Route::UserAgent
            &&& (path != "/"@ && path != "/index.html"@ && !contains(path, "/echo"@) && !contains(
                path,
                "/user-agent"@,
            )) ==> route_of(path, method) == Route::NotFound
        },
{
}

/// Chooses the route for a request path and method.
pub fn route(path: &str, method: Method) -> (r: Route)
    ensures
        r == route_of(path@, method),
        contains(path@, "/file"@) && method == Method::POST ==> r == Route::Upload,
        contains(path@, "/file"@) && method == Method::GET ==> r == Route::Download,
{
    let p = chars_of(path);
    proof {
        reveal_strlit("/file");
        reveal_strlit("/echo");
        reveal_strlit("/user-agent");
    }
    let file = contains_chars(&p, &chars_of("/file"));
    if file && method == Method::POST {
        Route::Upload
    } else if file && method == Method::GET {
        Route::Download
    } else if crate::text::chars_eq(&p, &chars_of("/index.html")) || crate::text::chars_eq(
        &p,
        &chars_of("/"),
    ) {
        Route::Index
    } else if contains_chars(&p, &chars_of("/echo")) {
        Route::Echo
    } else if contains_chars(&p, &chars_of("/user-agent")) {
        Route::UserAgent
    } else {
        Route::NotFound
    }
}

// ---------------------------------------------------------------------------
// Answers
// ---------------------------------------------------------------------------

/// The answer to an upload: `201 Created` (body `" "`) when the file was
/// stored, the refusal otherwise.
pub fn upload_response(stored: bool) -> (raw: String)
    ensures
        stored ==> raw@ == raw_response(
            ProtocolVersion::Http11,
            201,
            Seq::empty(),
            " "@,
            encode_utf8(" "@).len(),
            "\n"@,
        ),
        !stored ==> raw@ == raw_response(
            ProtocolVersion::Http11,
            404,
            Seq::empty(),
            "Invalid request"@,
            encode_utf8("Invalid request"@).len(),
            "\n"@,
        ),
{
    if stored {
        let mut r = crate::objects::create_data_response();
        r.status = 201;
        response_to_raw_string(r)
    } else {
        response_to_raw_string(crate::objects::create_err_response())
    }
}

/// The answer carrying a file's contents, sent as
/// `application/octet-stream`; `None` when the contents are not UTF-8 text.
pub fn file_response(contents: Vec<u8>) -> (out: Option<Vec<u8>>)
    ensures
        out is None <==> !valid_utf8(contents@),
        out matches Some(o) ==> o@ == encode_utf8(
            raw_response(
                ProtocolVersion::Http11,
                200,
                seq![("content-type"@, encode_utf8("application/octet-stream"@))],
                decode_utf8(contents@),
                contents@.len(),
                Seq::empty(),
            ),
        ),
{
    if str_from_utf8(contents.as_slice()).is_none() {
        return None;
    }
    proof {
        reveal_strlit("Content-Type");
        reveal_strlit("application/octet-stream");
        let n = "Content-Type"@;
        assert(n.len() == 12);
        assert forall|k: int| 0 <= k < n.len() implies is_token_char(#[trigger] n[k]) by {}
        assert(lowercase(n) =~= "content-type"@) by {
            reveal_strlit("content-type");
        }
        lemma_printable_value("application/octet-stream"@);
    }
    let mut response = Response::new(contents);
    response.set_header("Content-Type", "application/octet-stream");
    proof {
        crate::headers::lemma_insert_distinct(
            Seq::empty(),
            "content-type"@,
            encode_utf8("application/octet-stream"@),
        );
    }
    assert(header_entries(response.headers) =~= seq![
        ("content-type"@, encode_utf8("application/octet-stream"@)),
    ]);
    let raw = response_raw_vec(response);
    Some(vstd::slice::slice_to_vec(raw.as_str().as_bytes()))
}

/// The answer to an echo request: the last segment of the path, as a
/// `200 OK` text response.
pub fn echo_response(path: &str) -> (out: Vec<u8>)
    ensures
        out@ == encode_utf8(
            raw_response(
                ProtocolVersion::Http11,
                200,
                Seq::empty(),
                last_segment(path@),
                encode_utf8(last_segment(path@)).len(),
                Seq::empty(),
            ),
        ),
{
    let name = get_path_name(path.to_owned());
    let bytes = vstd::slice::slice_to_vec(name.as_str().as_bytes());
    proof {
        vstd::utf8::encode_utf8_valid_utf8(name@);
        vstd::utf8::encode_utf8_decode_utf8(name@);
    }
    process_buffer_to_response_buffer(bytes)
}

/// Whether every byte is visible ASCII or tab.
fn all_visible(bytes: &Vec<u8>) -> (ok: bool)
    ensures
        ok == forall|k: int| 0 <= k < bytes@.len() ==> visible_byte(#[trigger] bytes@[k]),
{
    let mut k: usize = 0;
    while k < bytes.len()
        invariant
            k <= bytes@.len(),
            forall|j: int| 0 <= j < k ==> visible_byte(#[trigger] bytes@[j]),
        decreases bytes.len() - k,
    {
        let b = bytes[k];
        if !((32 <= b && b < 127) || b == 9) {
            assert(!visible_byte(bytes@[k as int]));
            return false;
        }
        k = k + 1;
    }
    true
}

/// The `user-agent` value the echo of a request sends back: the request's
/// first `user-agent` value, or `none` when it has none.
pub open spec fn user_agent_value(es: Entries) -> Seq<u8> {
    match first_value(es, "user-agent"@) {
        Some(v) => v,
        None => encode_utf8("none"@),
    }
}

/// The value echoed for a user-agent request is the request's first
/// `user-agent` value, whole, or `none` when it has none.
pub proof fn lemma_user_agent_value(es: Entries)
    ensures
        first_value(es, "user-agent"@) matches Some(v) ==> user_agent_value(es) == v,
        first_value(es, "user-agent"@) is None ==> user_agent_value(es) == encode_utf8("none"@),
        first_value(es, "user-agent"@) is None ==> value_text(user_agent_value(es)) == "none"@,
{
    reveal_strlit("none");
    lemma_printable_value("none"@);
}

/// Takes the `user-agent` header out of the request and answers with its
/// value as a `200 OK` text response. `None` when the value is not
/// printable ASCII text (`HeaderValue::to_str` refuses it).
pub fn user_agent_response(request: &mut HttpRequest) -> (out: Option<Vec<u8>>)
    ensures
        out is None <==> !(forall|k: int|
            0 <= k < user_agent_value(header_entries(old(request).headers)).len() ==> visible_byte(
                #[trigger] user_agent_value(header_entries(old(request).headers))[k],
            )),
        out matches Some(o) ==> o@ == encode_utf8(
            raw_response(
                ProtocolVersion::Http11,
                200,
                Seq::empty(),
                value_text(user_agent_value(header_entries(old(request).headers))),
                encode_utf8(value_text(user_agent_value(header_entries(old(request).headers)))).len(),
                Seq::empty(),
            ),
        ),
        first_value(header_entries(old(request).headers), "user-agent"@) matches Some(v) ==> (
        out matches Some(o) ==> o@ == encode_utf8(
            raw_response(
                ProtocolVersion::Http11,
                200,
                Seq::empty(),
                value_text(v),
                encode_utf8(value_text(v)).len(),
                Seq::empty(),
            ),
        )),
        first_value(header_entries(old(request).headers), "user-agent"@) is None ==> out is Some
            && out.unwrap()@ == encode_utf8(
            raw_response(
                ProtocolVersion::Http11,
                200,
                Seq::empty(),
                "none"@,
                encode_utf8("none"@).len(),
                Seq::empty(),
            ),
        ),
        distinct_names(header_entries(old(request).headers)) ==> header_entries(
            final(request).headers,
        ) == remove_entry(header_entries(old(request).headers), "user-agent"@),
        final(request).request == old(request).request,
        final(request).body == old(request).body,
{
    proof {
        reveal_strlit("user-agent");
        reveal_strlit("none");
        let n = "user-agent"@;
        assert(n.len() == 10);
        assert forall|k: int| 0 <= k < n.len() implies is_token_char(#[trigger] n[k]) && (97 <= (
        n[k] as u32) <= 122 || n[k] == '-') by {}
        assert(lowercase(n) =~= n);
        lemma_printable_value("none"@);
    }
    let value = match header_map_remove(&mut request.headers, "user-agent") {
        Some(v) => v,
        None => vstd::slice::slice_to_vec("none".as_bytes()),
    };
    let ghost v = user_agent_value(header_entries(old(request).headers));
    proof {
        lemma_user_agent_value(header_entries(old(request).headers));
    }
    assert(value@ == v);
    if !all_visible(&value) {
        return None;
    }
    let text = string_of(&value_text_chars(&value));
    let bytes = vstd::slice::slice_to_vec(text.as_str().as_bytes());
    proof {
        vstd::utf8::encode_utf8_valid_utf8(text@);
        vstd::utf8::encode_utf8_decode_utf8(text@);
    }
    Some(process_buffer_to_response_buffer(bytes))
}

} // verus!
