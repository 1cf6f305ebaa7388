//! What is done for a request, step by step.
//!
//! Handling a request alternates between decisions, which are made here, and
//! work on the disk and the connection, which is done by whoever runs the
//! server. `begin` looks at the head of a request and says what to do next;
//! each later function takes the outcome of the work that was asked for and
//! says what to do after it, until a response is ready. Every response that
//! comes out of here carries the security headers.

use vstd::prelude::*;
use vstd::string::*;
use hyper::header::HeaderValue;
use hyper::HeaderMap;
use crate::form::FormData;
use crate::headers::{first_value, header_entries, Entries};
use crate::paths::{location, resolved, sanitize_path, static_location};
use crate::record::{log_entry, log_line};
use crate::response::{
    guarded, lemma_names_and_values, page, plain, with_security_headers, Response, ResponseView,
    CONTENT_TYPE,
};
use crate::text::{same_bytes, same_text};

verus! {

/// Largest body, in bytes, that is parsed.
pub const MAX_BODY_BYTES: usize = 10240;

pub const GET: &'static str = "GET";

pub const POST: &'static str = "POST";

/// The path that submissions are posted to.
pub const SUBMIT_PATH: &'static str = "/submit";

/// The content type that a submission must declare.
pub const JSON_TYPE: &'static str = "application/json";

pub const INVALID_PATH: &'static str = "400 - Invalid path";

pub const READ_FAILED: &'static str = "500 - Internal Server Error";

pub const EXPECTED_JSON: &'static str = "Expected application/json";

pub const TOO_LARGE: &'static str = "Payload too large";

pub const MALFORMED: &'static str = "Invalid form submission";

pub const THANKS: &'static str = "Thank you! Your message was received.";

pub const NOT_FOUND: &'static str = "404 - Not Found";

/// What kind of request a method and a path make.
#[derive(Clone, Copy, Debug, PartialEq, Eq, Structural)]
pub enum Route {
    /// A file under the static root is asked for.
    ServeFile,
    /// A submission is posted.
    Submit,
    /// Nothing is served for this method and path.
    NotFound,
}

/// What to do next for a request.
pub enum Next {
    /// Look whether this location exists on disk, then call `located`.
    Locate(String),
    /// Read this file as text, then call `file_read`.
    ReadFile(String),
    /// Read the body of the request, then call `body_read`.
    ReadBody,
    /// Parse the body as a submission, then call `parsed`.
    Parse,
    /// Append this line to the submission log, then call `appended`.
    Append(String),
    /// Send this response; the request is done.
    Respond(Response),
}

/// A next step as plain values.
pub enum NextView {
    Locate(Seq<char>),
    ReadFile(Seq<char>),
    ReadBody,
    Parse,
    Append(Seq<char>),
    Respond(ResponseView),
}

impl View for Next {
    type V = NextView;

    open spec fn view(&self) -> NextView {
        match self {
            Next::Locate(path) => NextView::Locate(path@),
            Next::ReadFile(path) => NextView::ReadFile(path@),
            Next::ReadBody => NextView::ReadBody,
            Next::Parse => NextView::Parse,
            Next::Append(line) => NextView::Append(line@),
            Next::Respond(response) => NextView::Respond(response@),
        }
    }
}

/// Every `GET` asks for a file; a `POST` to the submission path posts a
/// submission; nothing else is served.
pub open spec fn route_of(method: Seq<char>, path: Seq<char>) -> Route {
    if method == GET@ {
        Route::ServeFile
    } else if method == POST@ && path == SUBMIT_PATH@ {
        Route::Submit
    } else {
        Route::NotFound
    }
}

/// The first value of the content type is exactly that of JSON.
pub open spec fn declares_json(headers: Entries) -> bool {
    headers.dom().contains(CONTENT_TYPE@) && headers[CONTENT_TYPE@].first()
        == JSON_TYPE.spec_bytes()
}

/// The first step for a request with this method, path and headers.
pub open spec fn on_request(method: Seq<char>, path: Seq<char>, headers: Entries) -> NextView {
    match route_of(method, path) {
        Route::ServeFile => match location(path) {
            Some(file) => NextView::Locate(file),
            None => NextView::Respond(plain(400, INVALID_PATH@)),
        },
        Route::Submit => if declares_json(headers) {
            NextView::ReadBody
        } else {
            NextView::Respond(plain(415, EXPECTED_JSON@))
        },
        Route::NotFound => NextView::Respond(plain(404, NOT_FOUND@)),
    }
}

/// The step after the disk was asked for the location of `path`.
pub open spec fn on_located(path: Seq<char>, on_disk: bool) -> NextView {
    match resolved(path, on_disk) {
        Some(file) => NextView::ReadFile(file),
        None => NextView::Respond(plain(400, INVALID_PATH@)),
    }
}

/// The response after the file was read, or could not be.
pub open spec fn on_file(contents: Option<String>) -> ResponseView {
    match contents {
        Some(text) => page(text@),
        None => plain(500, READ_FAILED@),
    }
}

/// The step after a body of `len` bytes was read.
pub open spec fn on_body(len: nat) -> NextView {
    if len > MAX_BODY_BYTES {
        NextView::Respond(plain(413, TOO_LARGE@))
    } else {
        NextView::Parse
    }
}

/// The step after the body was parsed, or could not be.
pub open spec fn on_parsed(form: Option<FormData>) -> NextView {
    match form {
        None => NextView::Respond(plain(400, MALFORMED@)),
        Some(form) => match form.verdict() {
            Err(reason) => NextView::Respond(plain(400, reason)),
            Ok(_) => NextView::Append(log_line(form.name@, form.email@, form.message@)),
        },
    }
}

/// The response after the log was written to, or could not be: the same in
/// both cases.
pub open spec fn on_appended(written: bool) -> ResponseView {
    plain(200, THANKS@)
}

/// The kind of request that `method` and `path` make.
pub fn route(method: &str, path: &str) -> (found: Route)
    ensures
        found == route_of(method@, path@),
{
    if same_text(method, GET) {
        Route::ServeFile
    } else if same_text(method, POST) && same_text(path, SUBMIT_PATH) {
        Route::Submit
    } else {
        Route::NotFound
    }
}

/// A secured response with this status and body and no other header.
fn reply(status: u16, body: &str) -> (made: Response)
    ensures
        made@ == plain(status, body@),
{
    with_security_headers(Response::new(status, body.to_owned()))
}

/// Whether the headers of a request declare its body as JSON.
fn is_json(headers: &HeaderMap<HeaderValue>) -> (r: bool)
    ensures
        r == declares_json(header_entries(*headers)),
{
    proof {
        lemma_names_and_values();
    }
    match first_value(headers, CONTENT_TYPE) {
        Some(value) => same_bytes(value.as_slice(), JSON_TYPE.as_bytes()),
        None => false,
    }
}

/// The first step for a request, from its method, its path and its headers.
pub fn begin(method: &str, path: &str, headers: &HeaderMap<HeaderValue>) -> (next: Next)
    ensures
        next@ == on_request(method@, path@, header_entries(*headers)),
{
    match route(method, path) {
        Route::ServeFile => match static_location(path) {
            Some(file) => Next::Locate(file),
            None => Next::Respond(reply(400, INVALID_PATH)),
        },
        Route::Submit => if is_json(headers) {
            Next::ReadBody
        } else {
            Next::Respond(reply(415, EXPECTED_JSON))
        },
        Route::NotFound => Next::Respond(reply(404, NOT_FOUND)),
    }
}

/// The step after `Locate`: `on_disk` says whether the location that was
/// handed out for `path` exists.
pub fn located(path: &str, on_disk: bool) -> (next: Next)
    ensures
        next@ == on_located(path@, on_disk),
{
    match sanitize_path(path, on_disk) {
        Some(file) => Next::ReadFile(file),
        None => Next::Respond(reply(400, INVALID_PATH)),
    }
}

/// The response after `ReadFile`: `contents` is the text of the file, or
/// `None` if it could not be read.
pub fn file_read(contents: Option<String>) -> (response: Response)
    ensures
        response@ == on_file(contents),
{
    match contents {
        Some(text) => with_security_headers(Response::html(text)),
        None => reply(500, READ_FAILED),
    }
}

/// The step after `ReadBody`.
pub fn body_read(body: &[u8]) -> (next: Next)
    ensures
        next@ == on_body(body@.len()),
{
    if body.len() > MAX_BODY_BYTES {
        Next::Respond(reply(413, TOO_LARGE))
    } else {
        Next::Parse
    }
}

/// The step after `Parse`: `form` is the submission that the body holds, or
/// `None` if it holds none.
pub fn parsed(form: Option<FormData>) -> (next: Next)
    ensures
        next@ == on_parsed(form),
{
    match form {
        None => Next::Respond(reply(400, MALFORMED)),
        Some(form) => match form.is_valid() {
            Err(reason) => Next::Respond(reply(400, reason.as_str())),
            Ok(_) => Next::Append(log_entry(&form)),
        },
    }
}

/// The response after `Append`: `written` says whether the line is in the
/// log. The sender is thanked in both cases.
pub fn appended(written: bool) -> (response: Response)
    ensures
        response@ == on_appended(written),
{
    reply(200, THANKS)
}

/// A body over the cap is answered with status 413 and is never handed to
/// the parser.
pub proof fn lemma_oversized_body_not_parsed(len: nat)
    requires
        len > MAX_BODY_BYTES,
    ensures
        on_body(len) == NextView::Respond(plain(413, TOO_LARGE@)),
        on_body(len) != NextView::Parse,
{
}

/// A submission that does not declare its body as JSON is answered with
/// status 415, and its body is never read.
pub proof fn lemma_other_content_type_not_read(
    method: Seq<char>,
    path: Seq<char>,
    headers: Entries,
)
    requires
        route_of(method, path) == Route::Submit,
        !declares_json(headers),
    ensures
        on_request(method, path, headers) == NextView::Respond(plain(415, EXPECTED_JSON@)),
        on_request(method, path, headers) != NextView::ReadBody,
{
}

/// The sender of an accepted submission gets the same answer whether the
/// log could be written or not.
pub proof fn lemma_log_failure_not_shown()
    ensures
        on_appended(false) == on_appended(true),
        on_appended(false).status == 200,
{
}

/// Every response, to whatever request and after whatever outcome of the
/// work in between, carries the three security headers with their fixed
/// values.
pub proof fn lemma_every_response_guarded(
    method: Seq<char>,
    path: Seq<char>,
    headers: Entries,
    on_disk: bool,
    contents: Option<String>,
    len: nat,
    form: Option<FormData>,
    written: bool,
)
    ensures
        on_request(method, path, headers) matches NextView::Respond(response) ==> guarded(response),
        on_located(path, on_disk) matches NextView::Respond(response) ==> guarded(response),
        guarded(on_file(contents)),
        on_body(len) matches NextView::Respond(response) ==> guarded(response),
        on_parsed(form) matches NextView::Respond(response) ==> guarded(response),
        guarded(on_appended(written)),
{
    lemma_names_and_values();
}

} // verus!
