//! The routes this server answers: `/`, `/echo/<text>`, `/user-agent` and
//! `/files/<name>`. Reading and writing files is left to the caller, which
//! `route` tells what to do; everything else is decided here.

use vstd::prelude::*;
use vstd::utf8::*;
use vstd::slice::slice_to_vec;
use vstd::string::{StrSliceExecFns, StringExecFns};
use crate::compression::{gzip_encode, gzip_of};
use crate::config::ServerConfig;
use crate::headers::HttpHeaders;
use crate::message::{HttpMethod, HttpRequest, HttpResponse, RequestView, ResponseView};
use crate::message::wire_bytes;
use crate::text::{decimal, decimal_string, has_prefix, lemma_decimal_reads_back, lower_of, pieces, same_text,
    split_commas, trim, trim_ws, usize_of, views_of};

verus! {

/// A response of this server: version `HTTP/1.1` and the given parts.
pub open spec fn response_view(status: u16, reason: Seq<char>, headers: Map<Seq<char>, Seq<char>>, body: Seq<u8>) -> ResponseView {
    ResponseView { version: "HTTP/1.1"@, status, reason, headers, body }
}

/// `404 Not Found`, with no headers and no body.
pub open spec fn not_found_view() -> ResponseView {
    response_view(404, "Not Found"@, Map::empty(), seq![])
}

/// `Content-Type` and then `Content-Length`, as the handlers set them.
pub open spec fn typed_headers(content_type: Seq<char>, len: nat) -> Map<Seq<char>, Seq<char>> {
    Map::empty().insert(lower_of("Content-Type"@), content_type).insert(lower_of("Content-Length"@), decimal(len))
}

/// Whether the `Accept-Encoding` header lists `gzip` among its
/// comma-separated, trimmed entries.
pub open spec fn accepts_gzip(h: Map<Seq<char>, Seq<char>>) -> bool {
    let k = lower_of("Accept-Encoding"@);
    &&& h.contains_key(k)
    &&& exists|i: int| 0 <= i < pieces(h[k], ',').len() && trim(#[trigger] pieces(h[k], ',')[i]) == "gzip"@
}

/// The text that follows `/echo/`.
pub open spec fn echo_text(uri: Seq<char>) -> Seq<char> {
    uri.skip("/echo/"@.len() as int)
}

/// The echo response with the text as it is.
pub open spec fn plain_echo(uri: Seq<char>) -> ResponseView {
    let body = encode_utf8(echo_text(uri));
    response_view(200, "OK"@, typed_headers("text/plain"@, body.len()), body)
}

/// The echo response with the text gzip-encoded.
pub open spec fn gzip_echo(uri: Seq<char>) -> ResponseView {
    let body = gzip_of(encode_utf8(echo_text(uri)));
    let headers = Map::empty().insert(lower_of("Content-Type"@), "text/plain"@).insert(
        lower_of("Content-Encoding"@),
        "gzip"@,
    ).insert(lower_of("Content-Length"@), decimal(body.len()));
    response_view(200, "OK"@, headers, body)
}

/// The responses that an echo request may get: gzip-encoded where the client
/// accepts it and the encoder succeeds, plain otherwise.
pub open spec fn echo_spec(req: RequestView, r: ResponseView) -> bool {
    if accepts_gzip(req.headers) {
        r == gzip_echo(req.uri) || r == plain_echo(req.uri)
    } else {
        r == plain_echo(req.uri)
    }
}

/// The user agent's name, or `Unknown`, as plain text.
pub open spec fn user_agent_spec(req: RequestView) -> ResponseView {
    let k = lower_of("User-Agent"@);
    let agent = if req.headers.contains_key(k) { req.headers[k] } else { "Unknown"@ };
    let body = encode_utf8(agent);
    response_view(200, "OK"@, typed_headers("text/plain"@, body.len()), body)
}

/// The path of the file that a `/files/<name>` request names.
pub open spec fn file_path(directory: Seq<char>, uri: Seq<char>) -> Seq<char> {
    directory + "/"@ + uri.skip("/files/"@.len() as int)
}

/// The body of the answer to a stored file.
pub open spec fn uploaded_text() -> Seq<char> {
    "Uploaded successfully"@
}

/// Wherever a response carries a `Content-Length`, its value is the length
/// of the body, in decimal.
pub open spec fn length_declared(r: ResponseView) -> bool {
    let k = lower_of("Content-Length"@);
    r.headers.contains_key(k) ==> r.headers[k] == decimal(r.body.len())
}

/// What the server does with a file request: read or write the file, or
/// answer at once.
pub enum FileAction {
    Respond(HttpResponse),
    /// Read the file at this path and answer with `file_read_response`.
    Read(String),
    /// Write these bytes to the file at this path and answer with
    /// `file_write_response`.
    Write(String, Vec<u8>),
}

/// Whether a `/files/` request has to touch the disk: a directory is set and
/// the method is GET or POST.
pub open spec fn file_needs_storage(config: ServerConfig, req: RequestView) -> bool {
    config.directory is Some && (req.method == HttpMethod::Get || req.method == HttpMethod::Post)
}

/// The action for a `/files/` request.
pub open spec fn file_spec(config: ServerConfig, req: RequestView, r: FileAction) -> bool {
    match r {
        FileAction::Respond(resp) => !file_needs_storage(config, req) && resp@ == not_found_view(),
        FileAction::Read(path) => file_needs_storage(config, req) && req.method == HttpMethod::Get
            && path@ == file_path(config.directory->0@, req.uri),
        FileAction::Write(path, body) => file_needs_storage(config, req) && req.method == HttpMethod::Post
            && path@ == file_path(config.directory->0@, req.uri) && body@ == req.body,
    }
}

/// Answers a request to `/`: `200 OK`, nothing more.
pub fn handle_root(_request: &HttpRequest) -> (r: HttpResponse)
    ensures
        r@ == response_view(200, "OK"@, Map::empty(), seq![]),
{
    let r = HttpResponse::ok(HttpHeaders::new(), Vec::new());
    assert(r.body@ =~= Seq::<u8>::empty());
    r
}

/// Whether the client accepts a gzip-encoded body.
pub fn accepts_gzip_encoding(headers: &HttpHeaders) -> (r: bool)
    ensures
        r == accepts_gzip(headers@),
{
    let value = match headers.get("Accept-Encoding") {
        Some(v) => v,
        None => return false,
    };
    let parts = split_commas(value);
    let ghost ps = pieces(value@, ',');
    assert(views_of(parts@) == ps);
    let mut i: usize = 0;
    while i < parts.len()
        invariant
            ps == views_of(parts@),
            ps == pieces(value@, ','),
            headers@.contains_key(lower_of("Accept-Encoding"@)),
            value@ == headers@[lower_of("Accept-Encoding"@)],
            i <= parts@.len(),
            forall|j: int| 0 <= j < i ==> trim(#[trigger] ps[j]) != "gzip"@,
        decreases parts@.len() - i,
    {
        let entry = trim_ws(parts[i]);
        assert(ps[i as int] == parts@[i as int]@);
        if same_text(entry, "gzip") {
            assert(trim(ps[i as int]) == "gzip"@);
            return true;
        }
        i = i + 1;
    }
    false
}

/// The echo response for the text's bytes `plain`, or for `compressed`, the
/// gzip encoding of them, where there is one.
pub fn echo_response(plain: Vec<u8>, compressed: Option<Vec<u8>>) -> (r: HttpResponse)
    ensures
        match compressed {
            Some(c) => r@ == response_view(
                200,
                "OK"@,
                Map::empty().insert(lower_of("Content-Type"@), "text/plain"@).insert(
                    lower_of("Content-Encoding"@),
                    "gzip"@,
                ).insert(lower_of("Content-Length"@), decimal(c@.len())),
                c@,
            ),
            None => r@ == response_view(200, "OK"@, typed_headers("text/plain"@, plain@.len()), plain@),
        },
{
    let mut headers = HttpHeaders::new();
    headers.insert("Content-Type", "text/plain");
    let body = match compressed {
        Some(c) => {
            headers.insert("Content-Encoding", "gzip");
            c
        },
        None => plain,
    };
    let length = decimal_string(body.len());
    headers.insert("Content-Length", length.as_str());
    HttpResponse::ok(headers, body)
}

/// Answers a request to `/echo/<text>` with the text, gzip-encoded where the
/// client accepts that.
pub fn handle_echo(request: &HttpRequest) -> (r: HttpResponse)
    requires
        "/echo/"@.is_prefix_of(request.uri@),
    ensures
        echo_spec(request@, r@),
{
    proof {
        reveal_strlit("/echo/");
    }
    let uri = request.uri.as_str();
    let text = uri.substring_char(6, uri.unicode_len());
    let plain = slice_to_vec(text.as_bytes());
    let compressed = if accepts_gzip_encoding(&request.headers) {
        match gzip_encode(plain.as_slice()) {
            Ok(c) => Some(c),
            Err(_) => None,
        }
    } else {
        None
    };
    echo_response(plain, compressed)
}

/// Answers a request to `/user-agent` with the `User-Agent` header's value.
pub fn handle_user_agent(request: &HttpRequest) -> (r: HttpResponse)
    ensures
        r@ == user_agent_spec(request@),
{
    let agent = match request.headers.get("User-Agent") {
        Some(a) => a,
        None => "Unknown",
    };
    let body = slice_to_vec(agent.as_bytes());
    let mut headers = HttpHeaders::new();
    headers.insert("Content-Type", "text/plain");
    let length = decimal_string(body.len());
    headers.insert("Content-Length", length.as_str());
    HttpResponse::ok(headers, body)
}

/// Decides what a request to `/files/<name>` needs: with a directory set, GET
/// reads the file and POST writes it; anything else is not found.
pub fn handle_file(request: &HttpRequest, config: &ServerConfig) -> (r: FileAction)
    requires
        "/files/"@.is_prefix_of(request.uri@),
    ensures
        file_spec(*config, request@, r),
{
    proof {
        reveal_strlit("/files/");
    }
    match &config.directory {
        Some(directory) => match request.method {
            HttpMethod::Get | HttpMethod::Post => {
                let uri = request.uri.as_str();
                let name = uri.substring_char(7, uri.unicode_len());
                let path = directory.as_str().to_owned().concat("/").concat(name);
                assert(name@ =~= request.uri@.skip("/files/"@.len() as int));
                assert(path@ =~= file_path(directory@, request.uri@));
                if request.method == HttpMethod::Get {
                    FileAction::Read(path)
                } else {
                    FileAction::Write(path, slice_to_vec(request.body.as_slice()))
                }
            },
            _ => {
                FileAction::Respond(HttpResponse::not_found())
            },
        },
        None => {
            FileAction::Respond(HttpResponse::not_found())
        },
    }
}

/// The answer to a file read: its contents, or not found when it could not
/// be read.
pub fn file_read_response(contents: Option<Vec<u8>>) -> (r: HttpResponse)
    ensures
        match contents {
            Some(b) => r@ == response_view(200, "OK"@, typed_headers("application/octet-stream"@, b@.len()), b@),
            None => r@ == not_found_view(),
        },
        length_declared(r@),
{
    match contents {
        Some(bytes) => {
            let mut headers = HttpHeaders::new();
            headers.insert("Content-Type", "application/octet-stream");
            let length = decimal_string(bytes.len());
            headers.insert("Content-Length", length.as_str());
            HttpResponse::ok(headers, bytes)
        },
        None => HttpResponse::not_found(),
    }
}

/// The answer to a file write: `201 Created` when it was written, not found
/// otherwise.
pub fn file_write_response(written: bool) -> (r: HttpResponse)
    ensures
        written ==> r@ == response_view(
            201,
            "Created"@,
            typed_headers("text/plain"@, encode_utf8(uploaded_text()).len()),
            encode_utf8(uploaded_text()),
        ),
        !written ==> r@ == not_found_view(),
        length_declared(r@),
{
    if written {
        let body = slice_to_vec("Uploaded successfully".as_bytes());
        let mut headers = HttpHeaders::new();
        headers.insert("Content-Type", "text/plain");
        let length = decimal_string(body.len());
        headers.insert("Content-Length", length.as_str());
        HttpResponse::created(headers, body)
    } else {
        HttpResponse::not_found()
    }
}

/// Whether answering `req` means reading or writing a file.
pub open spec fn needs_storage(config: ServerConfig, req: RequestView) -> bool {
    &&& req.uri != "/"@
    &&& !"/echo/"@.is_prefix_of(req.uri)
    &&& req.uri != "/user-agent"@
    &&& "/files/"@.is_prefix_of(req.uri)
    &&& file_needs_storage(config, req)
}

/// The answer to a request that needs no file access.
pub open spec fn response_spec(config: ServerConfig, req: RequestView, r: ResponseView) -> bool {
    if req.uri == "/"@ {
        r == response_view(200, "OK"@, Map::empty(), seq![])
    } else if "/echo/"@.is_prefix_of(req.uri) {
        echo_spec(req, r)
    } else if req.uri == "/user-agent"@ {
        r == user_agent_spec(req)
    } else {
        r == not_found_view()
    }
}

/// What the router does with a request: answer it, or have a file read or
/// written first.
pub open spec fn route_spec(config: ServerConfig, req: RequestView, r: FileAction) -> bool {
    if needs_storage(config, req) {
        file_spec(config, req, r)
    } else {
        r matches FileAction::Respond(resp) && response_spec(config, req, resp@)
    }
}

/// Sends each request to the handler of its route.
pub struct Router {
    config: ServerConfig,
}

impl Router {
    /// The configuration the handlers see.
    pub closed spec fn config(&self) -> ServerConfig {
        self.config
    }

    pub fn new(config: ServerConfig) -> (r: Router)
        ensures
            r.config() == config,
    {
        Router { config }
    }

    /// Routes a request by its target.
    pub fn route(&self, request: &HttpRequest) -> (r: FileAction)
        ensures
            route_spec(self.config(), request@, r),
    {
        let uri = request.uri.as_str();
        if same_text(uri, "/") {
            FileAction::Respond(handle_root(request))
        } else if has_prefix(uri, "/echo/") {
            FileAction::Respond(handle_echo(request))
        } else if same_text(uri, "/user-agent") {
            FileAction::Respond(handle_user_agent(request))
        } else if has_prefix(uri, "/files/") {
            handle_file(request, &self.config)
        } else {
            FileAction::Respond(HttpResponse::not_found())
        }
    }

    /// Answers a request that needs no file access; requests that do go
    /// through `route`, whose caller reads or writes the file.
    pub fn handle(&self, request: HttpRequest) -> (r: HttpResponse)
        requires
            !needs_storage(self.config(), request@),
        ensures
            response_spec(self.config(), request@, r@),
    {
        match self.route(&request) {
            FileAction::Respond(r) => r,
            // not reached: `requires` rules out the routes that touch a file
            FileAction::Read(_) | FileAction::Write(_, _) => HttpResponse::not_found(),
        }
    }
}

/// Every answer that needs no file access declares its body's length
/// correctly, and a reader of that `Content-Length` gets the length back.
pub proof fn lemma_content_length_matches_body(config: ServerConfig, req: RequestView, r: ResponseView)
    requires
        response_spec(config, req, r),
        r.body.len() <= usize::MAX,
    ensures
        length_declared(r),
        r.headers.contains_key(lower_of("Content-Length"@)) ==> usize_of(r.headers[lower_of("Content-Length"@)])
            == Some(r.body.len()),
{
    lemma_decimal_reads_back(r.body.len());
}

/// Echoing gives back the text's bytes exactly: where the client does not
/// ask for gzip, the answer to `/echo/<text>` has the UTF-8 bytes of the text
/// as its body, and the bytes sent end with them.
pub proof fn lemma_echo_round_trip(config: ServerConfig, req: RequestView, r: ResponseView, text: Seq<char>)
    requires
        req.uri == "/echo/"@ + text,
        !accepts_gzip(req.headers),
        response_spec(config, req, r),
    ensures
        r.body == encode_utf8(text),
        wire_bytes(r).subrange(wire_bytes(r).len() - encode_utf8(text).len(), wire_bytes(r).len() as int)
            == encode_utf8(text),
{
    reveal_strlit("/echo/");
    reveal_strlit("/");
    assert(req.uri.len() >= 6);
    assert(req.uri != "/"@);
    assert("/echo/"@.is_prefix_of(req.uri)) by {
        assert(req.uri.subrange(0, 6) =~= "/echo/"@);
    }
    assert(echo_text(req.uri) =~= text);
    let w = wire_bytes(r);
    assert(w.subrange(w.len() - r.body.len(), w.len() as int) =~= r.body);
}

} // verus!
