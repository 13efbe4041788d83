//! Parsing a request from the bytes received on a connection.
//!
//! A request is a request line, header lines up to an empty line, and a body
//! of exactly `Content-Length` bytes. Lines end at a line feed. The parser is
//! given the bytes received so far and whether the peer has closed its side;
//! where the bytes do not yet decide the outcome it asks for more.

use vstd::prelude::*;
use vstd::utf8::*;
use vstd::slice::{slice_subrange, slice_to_vec};
use crate::headers::HttpHeaders;
use crate::message::{HttpMethod, HttpRequest, RequestView, method_of};
use crate::text::{
    lower_of, parse_usize, split_at_colon, split_words, trim, trim_ws, usize_of, utf8_text, views_of,
    words,
};

verus! {

/// Why a request could not be parsed. The connection that sent it is dropped.
#[derive(Debug, Clone, Copy, PartialEq, Eq, Structural)]
pub enum ParseError {
    /// The request line holds no token.
    EmptyRequestLine,
    /// The request line holds a method only.
    MissingUri,
    /// The request line holds no version.
    MissingVersion,
    /// The method is not one of GET, POST, PUT, DELETE in any case.
    InvalidMethod,
    /// A line is not valid UTF-8.
    InvalidUtf8,
    /// A header line holds no colon.
    MalformedHeader,
    /// The `Content-Length` value is not a number.
    InvalidContentLength,
    /// The peer closed the connection before the whole body arrived.
    TruncatedBody,
}

impl ParseError {
    /// A description of the error.
    pub fn message(&self) -> &'static str {
        match self {
            ParseError::EmptyRequestLine => "Empty HTTP request line",
            ParseError::MissingUri => "Missing URI in HTTP request line",
            ParseError::MissingVersion => "Missing HTTP version in HTTP request line",
            ParseError::InvalidMethod => "Invalid HTTP method",
            ParseError::InvalidUtf8 => "HTTP request line or header is not valid UTF-8",
            ParseError::MalformedHeader => "Malformed HTTP header",
            ParseError::InvalidContentLength => "Invalid Content-Length value",
            ParseError::TruncatedBody => "HTTP body shorter than its Content-Length",
        }
    }

    /// The description as an owned string.
    pub fn to_string(&self) -> String {
        self.message().to_owned()
    }
}

/// The index of the first line feed of `s` at or after `pos`.
pub open spec fn newline_from(s: Seq<u8>, pos: int) -> Option<int>
    decreases s.len() - pos,
{
    if pos < 0 || pos >= s.len() {
        None
    } else if s[pos] == 10u8 {
        Some(pos)
    } else {
        newline_from(s, pos + 1)
    }
}

/// Where the line that starts at `pos` ends (after its line feed), the way a
/// buffered reader reads a line: at the end of the stream the rest is the
/// line, possibly empty. `None` while the line is not complete.
pub open spec fn line_end(s: Seq<u8>, pos: int, eof: bool) -> Option<int> {
    match newline_from(s, pos) {
        Some(k) => Some(k + 1),
        None => if eof { Some(s.len() as int) } else { None },
    }
}

proof fn lemma_newline_from(s: Seq<u8>, pos: int)
    requires
        0 <= pos,
    ensures
        match newline_from(s, pos) {
            Some(k) => pos <= k < s.len() && s[k] == 10u8,
            None => true,
        },
    decreases s.len() - pos,
{
    if pos < s.len() && s[pos] != 10u8 {
        lemma_newline_from(s, pos + 1);
    }
}

/// Finds where the line that starts at `pos` ends.
pub fn find_line_end(buf: &[u8], pos: usize, at_eof: bool) -> (r: Option<usize>)
    requires
        pos <= buf@.len(),
    ensures
        match r {
            Some(e) => line_end(buf@, pos as int, at_eof) == Some(e as int) && pos <= e <= buf@.len(),
            None => line_end(buf@, pos as int, at_eof) is None,
        },
{
    let mut k: usize = pos;
    while k < buf.len()
        invariant
            pos <= k <= buf@.len(),
            newline_from(buf@, pos as int) == newline_from(buf@, k as int),
        decreases buf@.len() - k,
    {
        if buf[k] == 10u8 {
            return Some(k + 1);
        }
        k = k + 1;
    }
    if at_eof {
        Some(buf.len())
    } else {
        None
    }
}

/// What the request line `line` (its bytes, line end included) holds.
pub open spec fn request_line_spec(line: Seq<u8>) -> Result<(HttpMethod, Seq<char>, Seq<char>), ParseError> {
    if !valid_utf8(line) {
        Err(ParseError::InvalidUtf8)
    } else {
        let w = words(decode_utf8(line));
        if w.len() == 0 {
            Err(ParseError::EmptyRequestLine)
        } else if w.len() == 1 {
            Err(ParseError::MissingUri)
        } else if w.len() == 2 {
            Err(ParseError::MissingVersion)
        } else {
            match method_of(w[0]) {
                Some(m) => Ok((m, w[1], w[2])),
                None => Err(ParseError::InvalidMethod),
            }
        }
    }
}

/// Reads method, target and version from a request line: its first three
/// whitespace-separated tokens.
pub fn parse_request_line(line: &[u8]) -> (r: Result<(HttpMethod, String, String), ParseError>)
    ensures
        match r {
            Ok((m, u, v)) => request_line_spec(line@) == Ok::<_, ParseError>((m, u@, v@)),
            Err(e) => request_line_spec(line@) == Err::<(HttpMethod, Seq<char>, Seq<char>), _>(e),
        },
{
    let text = match utf8_text(line) {
        Some(t) => t,
        None => return Err(ParseError::InvalidUtf8),
    };
    let parts = split_words(text);
    let ghost w = words(text@);
    assert(views_of(parts@) == w);
    assert(parts@.len() == w.len());
    if parts.len() == 0 {
        return Err(ParseError::EmptyRequestLine);
    }
    if parts.len() == 1 {
        return Err(ParseError::MissingUri);
    }
    if parts.len() == 2 {
        return Err(ParseError::MissingVersion);
    }
    assert(parts@[0]@ == w[0] && parts@[1]@ == w[1] && parts@[2]@ == w[2]);
    let method = match HttpMethod::parse(parts[0]) {
        Some(m) => m,
        None => return Err(ParseError::InvalidMethod),
    };
    Ok((method, parts[1].to_owned(), parts[2].to_owned()))
}

/// The index of the first colon of `t`, for `t` that holds one.
pub open spec fn colon_at(t: Seq<char>) -> int {
    choose|i: int| 0 <= i < t.len() && t[i] == ':' && !t.subrange(0, i).contains(':')
}

proof fn lemma_colon_at(t: Seq<char>, a: Seq<char>, b: Seq<char>)
    requires
        t == a + seq![':'] + b,
        !a.contains(':'),
    ensures
        t.contains(':'),
        colon_at(t) == a.len(),
        t.subrange(0, a.len() as int) == a,
        t.subrange(a.len() as int + 1, t.len() as int) == b,
{
    let n = a.len() as int;
    assert(t[n] == ':');
    assert(t.subrange(0, n) =~= a);
    assert(t.subrange(n + 1, t.len() as int) =~= b);
    assert(0 <= n < t.len() && t[n] == ':' && !t.subrange(0, n).contains(':'));
    let i = colon_at(t);
    if i < n {
        assert(a[i] == ':');
    } else if i > n {
        assert(t.subrange(0, i)[n] == ':');
    }
}

/// What the header line `line` holds: the text before its first colon and
/// the text after it, both trimmed.
pub open spec fn header_line_spec(line: Seq<u8>) -> Result<(Seq<char>, Seq<char>), ParseError> {
    if !valid_utf8(line) {
        Err(ParseError::InvalidUtf8)
    } else {
        let t = decode_utf8(line);
        if !t.contains(':') {
            Err(ParseError::MalformedHeader)
        } else {
            let i = colon_at(t);
            Ok((trim(t.subrange(0, i)), trim(t.subrange(i + 1, t.len() as int))))
        }
    }
}

/// Reads the name and the value of a header line.
pub fn parse_header_line(line: &[u8]) -> (r: Result<(String, String), ParseError>)
    ensures
        match r {
            Ok((k, v)) => header_line_spec(line@) == Ok::<_, ParseError>((k@, v@)),
            Err(e) => header_line_spec(line@) == Err::<(Seq<char>, Seq<char>), _>(e),
        },
{
    let text = match utf8_text(line) {
        Some(t) => t,
        None => return Err(ParseError::InvalidUtf8),
    };
    match split_at_colon(text) {
        Some((k, v)) => {
            proof {
                lemma_colon_at(text@, k@, v@);
            }
            Ok((trim_ws(k).to_owned(), trim_ws(v).to_owned()))
        },
        None => Err(ParseError::MalformedHeader),
    }
}

/// Whether the bytes are exactly a carriage return and a line feed.
pub open spec fn is_blank_line(line: Seq<u8>) -> bool {
    line == seq![13u8, 10u8]
}

fn is_crlf(line: &[u8]) -> (r: bool)
    ensures
        r == is_blank_line(line@),
{
    let r = line.len() == 2 && line[0] == 13u8 && line[1] == 10u8;
    assert(r ==> line@ =~= seq![13u8, 10u8]);
    r
}

/// How reading the header block ends.
pub enum HeadersView {
    /// The headers read, and where the empty line that ends them ends.
    Done(Map<Seq<char>, Seq<char>>, int),
    Pending,
    Failed(ParseError),
}

/// Reads header lines from `pos` on into `m` until an empty line, or the end
/// of the stream.
#[verifier::opaque]
pub open spec fn headers_from(s: Seq<u8>, pos: int, eof: bool, m: Map<Seq<char>, Seq<char>>) -> HeadersView
    decreases s.len() - pos,
{
    match line_end(s, pos, eof) {
        None => HeadersView::Pending,
        Some(end) => {
            if !(0 <= pos < end <= s.len()) || is_blank_line(s.subrange(pos, end)) {
                HeadersView::Done(m, end)
            } else {
                match header_line_spec(s.subrange(pos, end)) {
                    Err(e) => HeadersView::Failed(e),
                    Ok((k, v)) => headers_from(s, end, eof, m.insert(lower_of(k), v)),
                }
            }
        },
    }
}

proof fn lemma_headers_step(s: Seq<u8>, pos: int, eof: bool, m: Map<Seq<char>, Seq<char>>, end: int)
    requires
        line_end(s, pos, eof) == Some(end),
        0 <= pos < end <= s.len(),
        !is_blank_line(s.subrange(pos, end)),
    ensures
        headers_from(s, pos, eof, m) == match header_line_spec(s.subrange(pos, end)) {
            Err(e) => HeadersView::Failed(e),
            Ok((k, v)) => headers_from(s, end, eof, m.insert(lower_of(k), v)),
        },
{
    reveal(headers_from);
}

proof fn lemma_headers_stop(s: Seq<u8>, pos: int, eof: bool, m: Map<Seq<char>, Seq<char>>)
    ensures
        line_end(s, pos, eof) is None ==> headers_from(s, pos, eof, m) == HeadersView::Pending,
        forall|end: int|
            line_end(s, pos, eof) == Some(end) && (!(0 <= pos < end <= s.len()) || is_blank_line(
                #[trigger] s.subrange(pos, end),
            )) ==> headers_from(s, pos, eof, m) == HeadersView::Done(m, end),
{
    reveal(headers_from);
}

/// How reading the header block ended.
pub enum HeadersRead {
    Done(HttpHeaders, usize),
    Incomplete,
    Failed(ParseError),
}

/// Reads the header block that starts at `pos`.
pub fn parse_headers(buf: &[u8], pos: usize, at_eof: bool) -> (r: HeadersRead)
    requires
        pos <= buf@.len(),
    ensures
        match r {
            HeadersRead::Done(h, end) => headers_from(buf@, pos as int, at_eof, Map::empty())
                == HeadersView::Done(h@, end as int) && end <= buf@.len(),
            HeadersRead::Incomplete => headers_from(buf@, pos as int, at_eof, Map::empty())
                == HeadersView::Pending,
            HeadersRead::Failed(e) => headers_from(buf@, pos as int, at_eof, Map::empty())
                == HeadersView::Failed(e),
        },
{
    let mut headers = HttpHeaders::new();
    let mut p: usize = pos;
    loop
        invariant
            pos <= p <= buf@.len(),
            headers_from(buf@, pos as int, at_eof, Map::empty()) == headers_from(buf@, p as int, at_eof, headers@),
        decreases buf@.len() - p,
    {
        proof {
            lemma_headers_stop(buf@, p as int, at_eof, headers@);
        }
        let end = match find_line_end(buf, p, at_eof) {
            Some(e) => e,
            None => return HeadersRead::Incomplete,
        };
        let line = slice_subrange(buf, p, end);
        if end <= p || is_crlf(line) {
            return HeadersRead::Done(headers, end);
        }
        proof {
            lemma_headers_step(buf@, p as int, at_eof, headers@, end as int);
        }
        match parse_header_line(line) {
            Ok((k, v)) => {
                headers.insert(k.as_str(), v.as_str());
                p = end;
            },
            Err(e) => return HeadersRead::Failed(e),
        }
    }
}

/// The body length that the headers announce: `None` without a
/// `Content-Length` header, an error when its value is not a number.
pub open spec fn content_length_spec(m: Map<Seq<char>, Seq<char>>) -> Result<Option<nat>, ParseError> {
    let k = lower_of("Content-Length"@);
    if m.contains_key(k) {
        match usize_of(m[k]) {
            Some(n) => Ok(Some(n)),
            None => Err(ParseError::InvalidContentLength),
        }
    } else {
        Ok(None)
    }
}

/// The value of the `Content-Length` header, if there is one.
pub fn get_content_length(headers: &HttpHeaders) -> (r: Result<Option<usize>, ParseError>)
    ensures
        match r {
            Ok(Some(n)) => content_length_spec(headers@) == Ok::<_, ParseError>(Some(n as nat)),
            Ok(None) => content_length_spec(headers@) == Ok::<Option<nat>, ParseError>(None),
            Err(e) => content_length_spec(headers@) == Err::<Option<nat>, _>(e),
        },
{
    match headers.get("Content-Length") {
        Some(value) => match parse_usize(value) {
            Some(n) => Ok(Some(n)),
            None => Err(ParseError::InvalidContentLength),
        },
        None => Ok(None),
    }
}

/// How reading a body ended.
pub enum BodyRead {
    /// The body, and where it ends.
    Done(Vec<u8>, usize),
    Incomplete,
    Failed(ParseError),
}

/// Reads the body that starts at `start`: as many bytes as `Content-Length`
/// says, none without it.
pub fn parse_body(buf: &[u8], start: usize, at_eof: bool, headers: &HttpHeaders) -> (r: BodyRead)
    requires
        start <= buf@.len(),
    ensures
        match content_length_spec(headers@) {
            Err(e) => r == BodyRead::Failed(e),
            Ok(cl) => {
                let n = match cl {
                    Some(n) => n as int,
                    None => 0,
                };
                if start + n <= buf@.len() {
                    r matches BodyRead::Done(body, end) && body@ == buf@.subrange(start as int, start + n)
                        && end == start + n
                } else if at_eof {
                    r == BodyRead::Failed(ParseError::TruncatedBody)
                } else {
                    r is Incomplete
                }
            },
        },
{
    let n: usize = match get_content_length(headers) {
        Ok(Some(n)) => n,
        Ok(None) => 0,
        Err(e) => return BodyRead::Failed(e),
    };
    if n > buf.len() - start {
        return if at_eof { BodyRead::Failed(ParseError::TruncatedBody) } else { BodyRead::Incomplete };
    }
    BodyRead::Done(slice_to_vec(slice_subrange(buf, start, start + n)), start + n)
}

/// What the bytes received so far make of the next request.
pub enum ParsedView {
    /// A whole request, and how many bytes it took.
    Request(RequestView, int),
    /// More bytes are needed to decide.
    Pending,
    /// The peer closed the connection without sending anything more.
    EndOfStream,
    Failed(ParseError),
}

/// The next request in the bytes `s`, where `eof` tells whether the peer has
/// closed its side (so that `s` is all there will be).
pub open spec fn parse_spec(s: Seq<u8>, eof: bool) -> ParsedView {
    if s.len() == 0 {
        if eof { ParsedView::EndOfStream } else { ParsedView::Pending }
    } else {
        match line_end(s, 0, eof) {
            None => ParsedView::Pending,
            Some(end) => match request_line_spec(s.subrange(0, end)) {
                Err(e) => ParsedView::Failed(e),
                Ok((method, uri, version)) => match headers_from(s, end, eof, Map::empty()) {
                    HeadersView::Pending => ParsedView::Pending,
                    HeadersView::Failed(e) => ParsedView::Failed(e),
                    HeadersView::Done(headers, hend) => match content_length_spec(headers) {
                        Err(e) => ParsedView::Failed(e),
                        Ok(cl) => {
                            let n = match cl {
                                Some(n) => n as int,
                                None => 0,
                            };
                            if hend + n <= s.len() {
                                ParsedView::Request(
                                    RequestView {
                                        method,
                                        uri,
                                        version,
                                        headers,
                                        body: s.subrange(hend, hend + n),
                                    },
                                    hend + n,
                                )
                            } else if eof {
                                ParsedView::Failed(ParseError::TruncatedBody)
                            } else {
                                ParsedView::Pending
                            }
                        },
                    },
                },
            },
        }
    }
}

/// The outcome of parsing the bytes received so far.
#[derive(Debug)]
pub enum ParseOutcome {
    /// A request, and how many of the bytes it took.
    Complete(HttpRequest, usize),
    /// More bytes are needed.
    Incomplete,
    /// The peer closed the connection without sending anything more.
    EndOfStream,
    Failed(ParseError),
}

/// Whether an outcome is the one that `parse_spec` describes.
pub open spec fn outcome_is(r: ParseOutcome, p: ParsedView) -> bool {
    match r {
        ParseOutcome::Complete(req, n) => p == ParsedView::Request(req@, n as int),
        ParseOutcome::Incomplete => p == ParsedView::Pending,
        ParseOutcome::EndOfStream => p == ParsedView::EndOfStream,
        ParseOutcome::Failed(e) => p == ParsedView::Failed(e),
    }
}

/// Parses the next request from the bytes received so far; `at_eof` tells
/// whether the peer has closed its side.
pub fn parse_request(buf: &[u8], at_eof: bool) -> (r: ParseOutcome)
    ensures
        outcome_is(r, parse_spec(buf@, at_eof)),
        r matches ParseOutcome::Complete(_, n) ==> n <= buf@.len(),
{
    if buf.len() == 0 {
        return if at_eof { ParseOutcome::EndOfStream } else { ParseOutcome::Incomplete };
    }
    let end = match find_line_end(buf, 0, at_eof) {
        Some(e) => e,
        None => return ParseOutcome::Incomplete,
    };
    let (method, uri, version) = match parse_request_line(slice_subrange(buf, 0, end)) {
        Ok(parts) => parts,
        Err(e) => return ParseOutcome::Failed(e),
    };
    let (headers, hend) = match parse_headers(buf, end, at_eof) {
        HeadersRead::Done(h, e) => (h, e),
        HeadersRead::Incomplete => return ParseOutcome::Incomplete,
        HeadersRead::Failed(e) => return ParseOutcome::Failed(e),
    };
    match parse_body(buf, hend, at_eof, &headers) {
        BodyRead::Done(body, end) => {
            let request = HttpRequest::new(method, uri, version, headers, body);
            ParseOutcome::Complete(request, end)
        },
        BodyRead::Incomplete => ParseOutcome::Incomplete,
        BodyRead::Failed(e) => ParseOutcome::Failed(e),
    }
}

proof fn lemma_newline_extends(s: Seq<u8>, t: Seq<u8>, pos: int)
    requires
        0 <= pos,
        newline_from(s, pos) is Some,
    ensures
        newline_from(s + t, pos) == newline_from(s, pos),
    decreases s.len() - pos,
{
    if pos < s.len() && s[pos] != 10u8 {
        lemma_newline_extends(s, t, pos + 1);
    }
}

proof fn lemma_line_end_extends(s: Seq<u8>, t: Seq<u8>, pos: int, eof: bool)
    requires
        0 <= pos,
        line_end(s, pos, false) is Some,
    ensures
        line_end(s + t, pos, eof) == line_end(s, pos, false),
        pos < line_end(s, pos, false)->0 <= s.len(),
{
    lemma_newline_extends(s, t, pos);
    lemma_newline_from(s, pos);
}

proof fn lemma_headers_extend(s: Seq<u8>, t: Seq<u8>, pos: int, eof: bool, m: Map<Seq<char>, Seq<char>>)
    requires
        0 <= pos,
        !(headers_from(s, pos, false, m) is Pending),
    ensures
        headers_from(s + t, pos, eof, m) == headers_from(s, pos, false, m),
        headers_from(s, pos, false, m) matches HeadersView::Done(_, end) ==> pos <= end <= s.len(),
    decreases s.len() - pos,
{
    reveal(headers_from);
    lemma_line_end_extends(s, t, pos, eof);
    let end = line_end(s, pos, false)->0;
    let u = s + t;
    if 0 <= pos < end <= s.len() {
        assert(u.subrange(pos, end) =~= s.subrange(pos, end));
        if !is_blank_line(s.subrange(pos, end)) {
            match header_line_spec(s.subrange(pos, end)) {
                Err(e) => {},
                Ok((k, v)) => {
                    lemma_headers_extend(s, t, end, eof, m.insert(lower_of(k), v));
                },
            }
        }
    } else {
        lemma_newline_from(s, pos);
    }
}

/// Bytes that arrive after a request never change it: once the bytes
/// received decide a request (or an error), any further bytes, and the end
/// of the stream, give the same outcome. A worker may thus answer a request
/// as soon as it is complete.
pub proof fn lemma_parse_ignores_later_bytes(s: Seq<u8>, t: Seq<u8>, eof: bool)
    requires
        parse_spec(s, false) is Request || parse_spec(s, false) is Failed,
    ensures
        parse_spec(s + t, eof) == parse_spec(s, false),
{
    let u = s + t;
    lemma_line_end_extends(s, t, 0, eof);
    let end = line_end(s, 0, false)->0;
    assert(u.subrange(0, end) =~= s.subrange(0, end));
    if request_line_spec(s.subrange(0, end)) is Ok {
        lemma_headers_extend(s, t, end, eof, Map::empty());
        if let HeadersView::Done(headers, hend) = headers_from(s, end, false, Map::empty()) {
            if let Ok(cl) = content_length_spec(headers) {
                let n = match cl {
                    Some(n) => n as int,
                    None => 0,
                };
                if hend + n <= s.len() {
                    assert(u.subrange(hend, hend + n) =~= s.subrange(hend, hend + n));
                }
            }
        }
    }
}

proof fn lemma_headers_done_bounds(s: Seq<u8>, pos: int, eof: bool, m: Map<Seq<char>, Seq<char>>)
    requires
        0 <= pos <= s.len(),
    ensures
        headers_from(s, pos, eof, m) matches HeadersView::Done(_, end) ==> pos <= end <= s.len(),
    decreases s.len() - pos,
{
    reveal(headers_from);
    lemma_newline_from(s, pos);
    if let Some(end) = line_end(s, pos, eof) {
        if 0 <= pos < end <= s.len() && !is_blank_line(s.subrange(pos, end)) {
            if let Ok((k, v)) = header_line_spec(s.subrange(pos, end)) {
                lemma_headers_done_bounds(s, end, eof, m.insert(lower_of(k), v));
            }
        }
    }
}

/// A parsed request's body is exactly as long as its `Content-Length`
/// header says, and empty without one; the request takes no more bytes than
/// were received.
pub proof fn lemma_body_matches_content_length(s: Seq<u8>, eof: bool)
    requires
        parse_spec(s, eof) is Request,
    ensures
        parse_spec(s, eof) matches ParsedView::Request(v, n) ==> n <= s.len() && match content_length_spec(v.headers) {
            Ok(Some(len)) => v.body.len() == len,
            Ok(None) => v.body.len() == 0,
            Err(_) => false,
        },
{
    lemma_newline_from(s, 0);
    let end = line_end(s, 0, eof)->0;
    lemma_headers_done_bounds(s, end, eof, Map::empty());
}

} // verus!
