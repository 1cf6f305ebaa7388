//! Responses, and the security headers that each of them carries.

use vstd::prelude::*;
use vstd::string::*;
use vstd::set_lib::lemma_len_subset;
use hyper::header::HeaderValue;
use hyper::HeaderMap;
use crate::headers::{
    header_entries, is_header_name, is_header_value, new_headers, set_header, Entries,
};

verus! {

/// The header that declares what a body is.
pub const CONTENT_TYPE: &'static str = "content-type";

/// The content type of every file that is served.
pub const HTML_TYPE: &'static str = "text/html; charset=utf-8";

/// The header that says where a page may fetch from.
pub const CONTENT_SECURITY_POLICY: &'static str = "content-security-policy";

/// Every fetch is restricted to the origin of the page.
pub const SAME_ORIGIN_ONLY: &'static str = "default-src 'self'";

/// The header that says whether a client may guess a content type.
pub const CONTENT_TYPE_OPTIONS: &'static str = "x-content-type-options";

/// A client may not guess.
pub const NO_SNIFF: &'static str = "nosniff";

/// The header that says whether a page may be shown in a frame.
pub const FRAME_OPTIONS: &'static str = "x-frame-options";

/// A page may not be shown in a frame.
pub const DENY_FRAMES: &'static str = "DENY";

/// A response as plain values.
pub struct ResponseView {
    pub status: u16,
    pub headers: Entries,
    pub body: Seq<char>,
}

/// A response before it is handed to the transport: a status code, headers
/// and a body of text. The only header names it ever has are the content
/// type and the three security headers.
pub struct Response {
    status: u16,
    headers: HeaderMap<HeaderValue>,
    body: String,
}

/// The header names that a response may have.
pub open spec fn response_names() -> Set<Seq<char>> {
    set![CONTENT_TYPE@, CONTENT_SECURITY_POLICY@, CONTENT_TYPE_OPTIONS@, FRAME_OPTIONS@]
}

/// `headers` with the single value `value` for `name`.
pub open spec fn with_value(headers: Entries, name: &str, value: &str) -> Entries {
    headers.insert(name@, seq![value.spec_bytes()])
}

/// `headers` has the single value `value` for `name`.
pub open spec fn has_value(headers: Entries, name: &str, value: &str) -> bool {
    headers.dom().contains(name@) && headers[name@] == seq![value.spec_bytes()]
}

/// `response` with the three security headers set to their fixed values,
/// whatever values they had.
pub open spec fn secure(response: ResponseView) -> ResponseView {
    ResponseView {
        status: response.status,
        headers: with_value(
            with_value(
                with_value(response.headers, CONTENT_SECURITY_POLICY, SAME_ORIGIN_ONLY),
                CONTENT_TYPE_OPTIONS,
                NO_SNIFF,
            ),
            FRAME_OPTIONS,
            DENY_FRAMES,
        ),
        body: response.body,
    }
}

/// `response` restricts all fetches to the same origin, forbids content
/// sniffing and forbids framing, each by a header with exactly one value.
pub open spec fn guarded(response: ResponseView) -> bool {
    &&& has_value(response.headers, CONTENT_SECURITY_POLICY, SAME_ORIGIN_ONLY)
    &&& has_value(response.headers, CONTENT_TYPE_OPTIONS, NO_SNIFF)
    &&& has_value(response.headers, FRAME_OPTIONS, DENY_FRAMES)
}

/// A response with no header.
pub open spec fn bare(status: u16, body: Seq<char>) -> ResponseView {
    ResponseView { status, headers: Map::empty(), body }
}

/// A secured response with no other header.
pub open spec fn plain(status: u16, body: Seq<char>) -> ResponseView {
    secure(bare(status, body))
}

/// A secured response of status 200 that is declared as HTML.
pub open spec fn page(body: Seq<char>) -> ResponseView {
    secure(
        ResponseView {
            status: 200,
            headers: with_value(Map::empty(), CONTENT_TYPE, HTML_TYPE),
            body,
        },
    )
}

impl View for Response {
    type V = ResponseView;

    closed spec fn view(&self) -> ResponseView {
        ResponseView {
            status: self.status,
            headers: header_entries(self.headers),
            body: self.body@,
        }
    }
}

/// The fixed names and values are valid ones, and the three security
/// headers have three different names.
pub(crate) proof fn lemma_names_and_values()
    ensures
        is_header_name(CONTENT_TYPE@),
        is_header_name(CONTENT_SECURITY_POLICY@),
        is_header_name(CONTENT_TYPE_OPTIONS@),
        is_header_name(FRAME_OPTIONS@),
        is_header_value(HTML_TYPE@),
        is_header_value(SAME_ORIGIN_ONLY@),
        is_header_value(NO_SNIFF@),
        is_header_value(DENY_FRAMES@),
        CONTENT_SECURITY_POLICY@ != CONTENT_TYPE_OPTIONS@,
        CONTENT_SECURITY_POLICY@ != FRAME_OPTIONS@,
        CONTENT_TYPE_OPTIONS@ != FRAME_OPTIONS@,
{
    reveal_strlit("content-type");
    reveal_strlit("text/html; charset=utf-8");
    reveal_strlit("content-security-policy");
    reveal_strlit("default-src 'self'");
    reveal_strlit("x-content-type-options");
    reveal_strlit("nosniff");
    reveal_strlit("x-frame-options");
    reveal_strlit("DENY");
    assert(CONTENT_SECURITY_POLICY@.len() == 23);
    assert(CONTENT_TYPE_OPTIONS@.len() == 22);
    assert(FRAME_OPTIONS@.len() == 15);
}

/// A map whose names are all among those of a response has room for more.
proof fn lemma_room(headers: Entries)
    requires
        headers.dom().subset_of(response_names()),
    ensures
        headers.dom().finite(),
        headers.dom().len() <= 4,
{
    lemma_len_subset(headers.dom(), response_names());
}

impl Response {
    #[verifier::type_invariant]
    spec fn names_known(&self) -> bool {
        header_entries(self.headers).dom().subset_of(response_names())
    }

    /// A response with the given status and body and no header.
    pub fn new(status: u16, body: String) -> (made: Response)
        ensures
            made@ == bare(status, body@),
    {
        Response { status, headers: new_headers(), body }
    }

    /// A response of status 200 with the given body, declared as HTML.
    pub fn html(body: String) -> (made: Response)
        ensures
            made@ == (ResponseView {
                status: 200,
                headers: with_value(Map::empty(), CONTENT_TYPE, HTML_TYPE),
                body: body@,
            }),
    {
        let mut headers = new_headers();
        proof {
            lemma_names_and_values();
        }
        set_header(&mut headers, CONTENT_TYPE, HTML_TYPE);
        Response { status: 200, headers, body }
    }

    /// The status code.
    pub fn status(&self) -> (status: u16)
        ensures
            status == self@.status,
    {
        self.status
    }

    /// The headers.
    pub fn headers(&self) -> (headers: &HeaderMap<HeaderValue>)
        ensures
            header_entries(*headers) == self@.headers,
    {
        &self.headers
    }

    /// The body.
    pub fn body(&self) -> (body: &str)
        ensures
            body@ == self@.body,
    {
        self.body.as_str()
    }

    /// The three parts of the response, for the transport to send.
    pub fn into_parts(self) -> (parts: (u16, HeaderMap<HeaderValue>, String))
        ensures
            parts.0 == self@.status,
            header_entries(parts.1) == self@.headers,
            parts.2@ == self@.body,
    {
        (self.status, self.headers, self.body)
    }
}

/// Sets the three security headers of `response` to their fixed values and
/// leaves the rest of it as it is.
pub fn with_security_headers(response: Response) -> (secured: Response)
    ensures
        secured@ == secure(response@),
        guarded(secured@),
{
    proof {
        use_type_invariant(&response);
        lemma_names_and_values();
        lemma_room(header_entries(response.headers));
    }
    let Response { status, headers, body } = response;
    let mut headers = headers;
    set_header(&mut headers, CONTENT_SECURITY_POLICY, SAME_ORIGIN_ONLY);
    proof {
        lemma_room(header_entries(headers));
    }
    set_header(&mut headers, CONTENT_TYPE_OPTIONS, NO_SNIFF);
    proof {
        lemma_room(header_entries(headers));
    }
    set_header(&mut headers, FRAME_OPTIONS, DENY_FRAMES);
    Response { status, headers, body }
}

/// Whatever a response holds, once secured it carries the three security
/// headers with their fixed values, and its status and body are unchanged.
pub proof fn lemma_secure_guards(response: ResponseView)
    ensures
        guarded(secure(response)),
        secure(response).status == response.status,
        secure(response).body == response.body,
{
    lemma_names_and_values();
}

/// Securing a response leaves every header but the three security headers as
/// it was.
pub proof fn lemma_secure_keeps_others(response: ResponseView, name: Seq<char>)
    requires
        name != CONTENT_SECURITY_POLICY@,
        name != CONTENT_TYPE_OPTIONS@,
        name != FRAME_OPTIONS@,
    ensures
        secure(response).headers.dom().contains(name) == response.headers.dom().contains(name),
        response.headers.dom().contains(name) ==> secure(response).headers[name]
            == response.headers[name],
{
}

/// Securing a response twice is securing it once.
pub proof fn lemma_secure_idempotent(response: ResponseView)
    ensures
        secure(secure(response)) == secure(response),
{
    lemma_names_and_values();
    assert(secure(secure(response)).headers =~= secure(response).headers);
}

} // verus!
