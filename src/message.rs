//! Requests and responses, and the bytes a response is written as.

use vstd::prelude::*;
use vstd::utf8::*;
use vstd::string::StringExecFns;
use crate::headers::{HttpHeaders, HeaderView, pair_views, sorted_entries};
use crate::text::{decimal, decimal_string, same_text, upper_of, uppercase};

verus! {

/// The request methods this server knows.
#[derive(Debug, Clone, Copy, PartialEq, Eq, Structural)]
pub enum HttpMethod {
    Get,
    Post,
    Put,
    Delete,
}

/// The name of a method as it stands on the wire.
pub open spec fn method_name(m: HttpMethod) -> Seq<char> {
    match m {
        HttpMethod::Get => "GET"@,
        HttpMethod::Post => "POST"@,
        HttpMethod::Put => "PUT"@,
        HttpMethod::Delete => "DELETE"@,
    }
}

/// The method named by an upper-case token.
pub open spec fn method_of_upper(u: Seq<char>) -> Option<HttpMethod> {
    if u == "GET"@ {
        Some(HttpMethod::Get)
    } else if u == "POST"@ {
        Some(HttpMethod::Post)
    } else if u == "PUT"@ {
        Some(HttpMethod::Put)
    } else if u == "DELETE"@ {
        Some(HttpMethod::Delete)
    } else {
        None
    }
}

/// The method named by a token in any case: its upper-case form is a name.
pub open spec fn method_of(token: Seq<char>) -> Option<HttpMethod> {
    method_of_upper(upper_of(token))
}

impl HttpMethod {
    /// The method's name on the wire.
    pub fn as_str(&self) -> (r: &'static str)
        ensures
            r@ == method_name(*self),
    {
        match self {
            HttpMethod::Get => "GET",
            HttpMethod::Post => "POST",
            HttpMethod::Put => "PUT",
            HttpMethod::Delete => "DELETE",
        }
    }

    /// The name of the method as an owned string.
    pub fn to_string(&self) -> (r: String)
        ensures
            r@ == method_name(*self),
    {
        self.as_str().to_owned()
    }

    /// The method whose name is exactly `u`.
    pub fn from_upper(u: &str) -> (r: Option<HttpMethod>)
        ensures
            r == method_of_upper(u@),
    {
        if same_text(u, "GET") {
            Some(HttpMethod::Get)
        } else if same_text(u, "POST") {
            Some(HttpMethod::Post)
        } else if same_text(u, "PUT") {
            Some(HttpMethod::Put)
        } else if same_text(u, "DELETE") {
            Some(HttpMethod::Delete)
        } else {
            None
        }
    }

    /// The method named by `s` in any case.
    pub fn parse(s: &str) -> (r: Option<HttpMethod>)
        ensures
            r == method_of(s@),
    {
        let u = uppercase(s);
        HttpMethod::from_upper(u.as_str())
    }
}

impl std::str::FromStr for HttpMethod {
    type Err = String;

    fn from_str(s: &str) -> Result<HttpMethod, String> {
        match HttpMethod::parse(s) {
            Some(m) => Ok(m),
            None => Err("Unknown HTTP method: ".to_owned().concat(s)),
        }
    }
}

/// A request as the contracts see it.
pub struct RequestView {
    pub method: HttpMethod,
    pub uri: Seq<char>,
    pub version: Seq<char>,
    pub headers: Map<Seq<char>, Seq<char>>,
    pub body: Seq<u8>,
}

/// A parsed request: method, raw target, version, headers and body.
#[derive(Debug, Clone)]
pub struct HttpRequest {
    pub method: HttpMethod,
    pub uri: String,
    pub http_version: String,
    pub headers: HttpHeaders,
    pub body: Vec<u8>,
}

impl View for HttpRequest {
    type V = RequestView;

    open spec fn view(&self) -> RequestView {
        RequestView {
            method: self.method,
            uri: self.uri@,
            version: self.http_version@,
            headers: self.headers@,
            body: self.body@,
        }
    }
}

impl HttpRequest {
    /// A request made of the given parts.
    pub fn new(
        method: HttpMethod,
        uri: String,
        http_version: String,
        headers: HttpHeaders,
        body: Vec<u8>,
    ) -> (r: HttpRequest)
        ensures
            r.method == method,
            r.uri == uri,
            r.http_version == http_version,
            r.headers == headers,
            r.body == body,
    {
        HttpRequest { method, uri, http_version, headers, body }
    }
}

/// A response as the contracts see it.
pub struct ResponseView {
    pub version: Seq<char>,
    pub status: u16,
    pub reason: Seq<char>,
    pub headers: Map<Seq<char>, Seq<char>>,
    pub body: Seq<u8>,
}

/// A response: version, status code, reason phrase, headers and body.
#[derive(Debug, Clone)]
pub struct HttpResponse {
    pub http_version: String,
    pub status: u16,
    pub reason_phrase: String,
    pub headers: HttpHeaders,
    pub body: Vec<u8>,
}

impl View for HttpResponse {
    type V = ResponseView;

    open spec fn view(&self) -> ResponseView {
        ResponseView {
            version: self.http_version@,
            status: self.status,
            reason: self.reason_phrase@,
            headers: self.headers@,
            body: self.body@,
        }
    }
}

/// A carriage return and a line feed: the end of a line.
pub open spec fn crlf() -> Seq<u8> {
    seq![13u8, 10u8]
}

/// `<version> <status> <reason>` and a line end.
pub open spec fn status_line(r: ResponseView) -> Seq<u8> {
    encode_utf8(r.version) + seq![32u8] + encode_utf8(decimal(r.status as nat)) + seq![32u8]
        + encode_utf8(r.reason) + crlf()
}

/// One `<name>: <value>` line for each header, in the order given.
pub open spec fn header_lines(hs: Seq<HeaderView>) -> Seq<u8>
    decreases hs.len(),
{
    if hs.len() == 0 {
        seq![]
    } else {
        header_lines(hs.drop_last()) + encode_utf8(hs.last().0) + seq![58u8, 32u8]
            + encode_utf8(hs.last().1) + crlf()
    }
}

/// The status line, the headers in increasing name order, and the empty line.
pub open spec fn head_bytes(r: ResponseView) -> Seq<u8> {
    status_line(r) + header_lines(sorted_entries(r.headers)) + crlf()
}

/// The whole response on the wire: the head, then the body as it is.
pub open spec fn wire_bytes(r: ResponseView) -> Seq<u8> {
    head_bytes(r) + r.body
}

/// The bytes of a response do not depend on the order in which its headers
/// were set: setting two headers of different names in either order gives
/// the same head.
pub proof fn lemma_header_order_irrelevant(
    r: ResponseView,
    k1: Seq<char>,
    v1: Seq<char>,
    k2: Seq<char>,
    v2: Seq<char>,
)
    requires
        k1 != k2,
    ensures
        head_bytes(ResponseView { headers: r.headers.insert(k1, v1).insert(k2, v2), ..r })
            == head_bytes(ResponseView { headers: r.headers.insert(k2, v2).insert(k1, v1), ..r }),
{
    assert(r.headers.insert(k1, v1).insert(k2, v2) =~= r.headers.insert(k2, v2).insert(k1, v1));
}

fn append_bytes(out: &mut Vec<u8>, b: &[u8])
    ensures
        final(out)@ == old(out)@ + b@,
{
    let mut i: usize = 0;
    while i < b.len()
        invariant
            i <= b@.len(),
            out@ == old(out)@ + b@.subrange(0, i as int),
        decreases b@.len() - i,
    {
        out.push(b[i]);
        assert(b@.subrange(0, i + 1) =~= b@.subrange(0, i as int).push(b@[i as int]));
        i = i + 1;
    }
    assert(b@.subrange(0, b@.len() as int) =~= b@);
}

impl HttpResponse {
    /// An `HTTP/1.1` response with the given parts.
    pub fn new(status: u16, reason_phrase: &str, headers: HttpHeaders, body: Vec<u8>) -> (r: HttpResponse)
        ensures
            r.http_version@ == "HTTP/1.1"@,
            r.status == status,
            r.reason_phrase@ == reason_phrase@,
            r.headers == headers,
            r.body == body,
    {
        HttpResponse {
            http_version: "HTTP/1.1".to_owned(),
            status,
            reason_phrase: reason_phrase.to_owned(),
            headers,
            body,
        }
    }

    /// `200 OK` with the given headers and body.
    pub fn ok(headers: HttpHeaders, body: Vec<u8>) -> (r: HttpResponse)
        ensures
            r.http_version@ == "HTTP/1.1"@,
            r.status == 200,
            r.reason_phrase@ == "OK"@,
            r.headers == headers,
            r.body == body,
    {
        HttpResponse::new(200, "OK", headers, body)
    }

    /// `201 Created` with the given headers and body.
    pub fn created(headers: HttpHeaders, body: Vec<u8>) -> (r: HttpResponse)
        ensures
            r.http_version@ == "HTTP/1.1"@,
            r.status == 201,
            r.reason_phrase@ == "Created"@,
            r.headers == headers,
            r.body == body,
    {
        HttpResponse::new(201, "Created", headers, body)
    }

    /// `404 Not Found` with no headers and an empty body.
    pub fn not_found() -> (r: HttpResponse)
        ensures
            r.http_version@ == "HTTP/1.1"@,
            r.status == 404,
            r.reason_phrase@ == "Not Found"@,
            r.headers@ == Map::<Seq<char>, Seq<char>>::empty(),
            r.body@ == Seq::<u8>::empty(),
    {
        let r = HttpResponse::new(404, "Not Found", HttpHeaders::new(), Vec::new());
        assert(r.body@ =~= Seq::<u8>::empty());
        r
    }

    /// The status line and the headers, sorted by name, up to and including
    /// the empty line that ends them.
    pub fn serialize(&self) -> (r: Vec<u8>)
        ensures
            r@ == head_bytes(self@),
    {
        let mut out: Vec<u8> = Vec::new();
        append_bytes(&mut out, self.http_version.as_str().as_bytes());
        out.push(32u8);
        let code = decimal_string(self.status as usize);
        append_bytes(&mut out, code.as_str().as_bytes());
        out.push(32u8);
        append_bytes(&mut out, self.reason_phrase.as_str().as_bytes());
        out.push(13u8);
        out.push(10u8);
        assert(out@ =~= status_line(self@));
        let hs = self.headers.iter();
        let ghost hv = pair_views(hs@);
        let mut i: usize = 0;
        while i < hs.len()
            invariant
                hv == pair_views(hs@),
                i <= hs@.len(),
                out@ == status_line(self@) + header_lines(hv.subrange(0, i as int)),
            decreases hs@.len() - i,
        {
            let ghost before = out@;
            append_bytes(&mut out, hs[i].0.as_str().as_bytes());
            out.push(58u8);
            out.push(32u8);
            append_bytes(&mut out, hs[i].1.as_str().as_bytes());
            out.push(13u8);
            out.push(10u8);
            proof {
                let sub = hv.subrange(0, i + 1);
                assert(sub.drop_last() =~= hv.subrange(0, i as int));
                assert(sub.last() == hv[i as int]);
                assert(out@ =~= before + encode_utf8(sub.last().0) + seq![58u8, 32u8]
                    + encode_utf8(sub.last().1) + crlf());
            }
            i = i + 1;
        }
        assert(hv.subrange(0, hs@.len() as int) =~= hv);
        out.push(13u8);
        out.push(10u8);
        assert(out@ =~= head_bytes(self@));
        out
    }

    /// The head followed by the body: the bytes sent for this response.
    pub fn to_bytes(&self) -> (r: Vec<u8>)
        ensures
            r@ == wire_bytes(self@),
    {
        let mut out = self.serialize();
        append_bytes(&mut out, self.body.as_slice());
        out
    }
}

} // verus!
