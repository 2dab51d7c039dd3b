//! The calls into `httparse`, `url` and std's lossy UTF-8 decoding, each
//! behind one trusted wrapper, with the plain-value types that carry their
//! results into the verified code.
use vstd::prelude::*;
use vstd::utf8::*;

verus! {

/// The start of a request as `httparse` read it: the number of bytes that
/// the request line and headers take, the request line's parts, and the
/// headers with their raw values.
pub struct RequestHead {
    pub size: usize,
    pub method: Option<String>,
    pub path: Option<String>,
    pub version: Option<u8>,
    pub headers: Vec<(String, Vec<u8>)>,
}

/// What `httparse` made of a request buffer.
pub enum RequestParse {
    /// The head is complete.
    Complete(RequestHead),
    /// The buffer ends before the head does.
    Partial,
    /// The buffer is not an HTTP request; the text describes the fault.
    Invalid(String),
}

/// The start of a response as `httparse` read it.
pub struct ResponseHead {
    pub size: usize,
    pub headers: Vec<(String, Vec<u8>)>,
}

/// What `httparse` made of a response buffer.
pub enum ResponseParse {
    Complete(ResponseHead),
    Partial,
    Invalid(String),
}

/// The parts of a URL that the proxy uses.
pub struct UrlParts {
    pub host: Option<String>,
    pub port: Option<u16>,
    pub path: String,
    pub query: Option<String>,
}

/// What `url` made of a URL.
pub enum UrlParse {
    Parsed(UrlParts),
    Invalid(String),
}

/// Mathematical form of a [`RequestHead`].
pub struct RequestHeadView {
    pub size: nat,
    pub method: Option<Seq<char>>,
    pub path: Option<Seq<char>>,
    pub version: Option<u8>,
    pub headers: Seq<(Seq<char>, Seq<u8>)>,
}

pub enum RequestParseView {
    Complete(RequestHeadView),
    Partial,
    Invalid(Seq<char>),
}

pub struct ResponseHeadView {
    pub size: nat,
    pub headers: Seq<(Seq<char>, Seq<u8>)>,
}

pub enum ResponseParseView {
    Complete(ResponseHeadView),
    Partial,
    Invalid(Seq<char>),
}

pub struct UrlPartsView {
    pub host: Option<Seq<char>>,
    pub port: Option<u16>,
    pub path: Seq<char>,
    pub query: Option<Seq<char>>,
}

pub enum UrlParseView {
    Parsed(UrlPartsView),
    Invalid(Seq<char>),
}

impl View for RequestHead {
    type V = RequestHeadView;

    open spec fn view(&self) -> RequestHeadView {
        RequestHeadView {
            size: self.size as nat,
            method: self.method.deep_view(),
            path: self.path.deep_view(),
            version: self.version,
            headers: self.headers.deep_view(),
        }
    }
}

impl View for RequestParse {
    type V = RequestParseView;

    open spec fn view(&self) -> RequestParseView {
        match self {
            RequestParse::Complete(h) => RequestParseView::Complete(h@),
            RequestParse::Partial => RequestParseView::Partial,
            RequestParse::Invalid(e) => RequestParseView::Invalid(e@),
        }
    }
}

impl View for ResponseHead {
    type V = ResponseHeadView;

    open spec fn view(&self) -> ResponseHeadView {
        ResponseHeadView { size: self.size as nat, headers: self.headers.deep_view() }
    }
}

impl View for ResponseParse {
    type V = ResponseParseView;

    open spec fn view(&self) -> ResponseParseView {
        match self {
            ResponseParse::Complete(h) => ResponseParseView::Complete(h@),
            ResponseParse::Partial => ResponseParseView::Partial,
            ResponseParse::Invalid(e) => ResponseParseView::Invalid(e@),
        }
    }
}

impl View for UrlParts {
    type V = UrlPartsView;

    open spec fn view(&self) -> UrlPartsView {
        UrlPartsView {
            host: self.host.deep_view(),
            port: self.port,
            path: self.path@,
            query: self.query.deep_view(),
        }
    }
}

impl View for UrlParse {
    type V = UrlParseView;

    open spec fn view(&self) -> UrlParseView {
        match self {
            UrlParse::Parsed(u) => UrlParseView::Parsed(u@),
            UrlParse::Invalid(e) => UrlParseView::Invalid(e@),
        }
    }
}

/// What `httparse::Request::parse` (with room for 64 headers) makes of a buffer.
pub uninterp spec fn httparse_request(data: Seq<u8>) -> RequestParseView;

/// What `httparse::Response::parse` (with room for 64 headers) makes of a buffer.
pub uninterp spec fn httparse_response(data: Seq<u8>) -> ResponseParseView;

/// What `url::Url::parse` makes of a text, reduced to host, port, path and query.
pub uninterp spec fn url_parse(text: Seq<char>) -> UrlParseView;

/// What `String::from_utf8_lossy` makes of a byte sequence.
pub uninterp spec fn utf8_lossy(bytes: Seq<u8>) -> Seq<char>;

/// Calls `httparse::Request::parse` on `data` with a buffer of 64 headers.
/// Trusted: the result equals `httparse_request(data@)`. When the head is
/// complete, its size lies within `data` and the method, path and version
/// are all present (the parser fills them in before it reads the headers).
/// The parse error is kept as its `Display` text.
#[verifier::external_body]
pub(crate) fn parse_request_head(data: &[u8]) -> (r: RequestParse)
    ensures
        r@ == httparse_request(data@),
        r matches RequestParse::Complete(h) ==> h.size <= data@.len() && h.method is Some
            && h.path is Some && h.version is Some,
{
    let mut headers = [httparse::EMPTY_HEADER; 64];
    let mut req = httparse::Request::new(&mut headers);
    match req.parse(data) {
        Ok(httparse::Status::Complete(size)) => RequestParse::Complete(RequestHead {
            size,
            method: req.method.map(str::to_string),
            path: req.path.map(str::to_string),
            version: req.version,
            headers: req.headers.iter().map(|h| (h.name.to_string(), h.value.to_vec())).collect(),
        }),
        Ok(httparse::Status::Partial) => RequestParse::Partial,
        Err(e) => RequestParse::Invalid(e.to_string()),
    }
}

/// Calls `httparse::Response::parse` on `data` with a buffer of 64 headers.
/// Trusted: the result equals `httparse_response(data@)`, and a complete
/// head's size lies within `data`.
#[verifier::external_body]
pub(crate) fn parse_response_head(data: &[u8]) -> (r: ResponseParse)
    ensures
        r@ == httparse_response(data@),
        r matches ResponseParse::Complete(h) ==> h.size <= data@.len(),
{
    let mut headers = [httparse::EMPTY_HEADER; 64];
    let mut res = httparse::Response::new(&mut headers);
    match res.parse(data) {
        Ok(httparse::Status::Complete(size)) => ResponseParse::Complete(ResponseHead {
            size,
            headers: res.headers.iter().map(|h| (h.name.to_string(), h.value.to_vec())).collect(),
        }),
        Ok(httparse::Status::Partial) => ResponseParse::Partial,
        Err(e) => ResponseParse::Invalid(e.to_string()),
    }
}

/// Calls `url::Url::parse` on `text` and reads back the host (`host_str`),
/// the explicit port (`port`, absent when it is the scheme's default), the
/// path and the query. Trusted: the result equals `url_parse(text@)`; the
/// parse error is kept as its `Display` text.
#[verifier::external_body]
pub(crate) fn parse_url(text: &str) -> (r: UrlParse)
    ensures
        r@ == url_parse(text@),
{
    match url::Url::parse(text) {
        Ok(u) => UrlParse::Parsed(UrlParts {
            host: u.host_str().map(str::to_string),
            port: u.port(),
            path: u.path().to_string(),
            query: u.query().map(str::to_string),
        }),
        Err(e) => UrlParse::Invalid(e.to_string()),
    }
}

/// Calls `String::from_utf8_lossy` on `bytes`. Trusted: the result equals
/// `utf8_lossy(bytes@)`; on valid UTF-8 it is exactly the decoded text, and
/// otherwise the invalid sequences show as U+FFFD, as std documents. Where
/// in the text they show is left unsaid.
#[verifier::external_body]
pub(crate) fn lossy_text(bytes: &[u8]) -> (s: String)
    ensures
        s@ == utf8_lossy(bytes@),
        valid_utf8(bytes@) ==> s@ == decode_utf8(bytes@),
        !valid_utf8(bytes@) ==> s@.contains('\u{FFFD}'),
{
    String::from_utf8_lossy(bytes).into_owned()
}

} // verus!
