//! HTTP requests and responses as the proxy handles them: reading a request
//! from its raw bytes, rebuilding one from text that the user edited, and
//! writing one back out.
use vstd::prelude::*;
use vstd::utf8::{decode_utf8, decode_utf8_encode_utf8, encode_utf8, valid_utf8};

use crate::editing::{lemma_decode_after_text, lemma_valid_after_text};

use crate::bridge::{
    httparse_request, httparse_response, lossy_text, parse_request_head, parse_response_head,
    parse_url, url_parse, utf8_lossy, RequestHead, RequestHeadView, RequestParse,
    RequestParseView, ResponseHeadView, ResponseParse, ResponseParseView, UrlParse, UrlParseView, UrlPartsView,
};
use crate::text::{
    chars_equal, chars_of, copy_range, dec, decimal, eq_ignore_ascii_case, eq_ignore_case, find, find_chars,
    lemma_dec_lacks, lemma_find_from_bounds, lemma_parse_dec, lemma_rfind_char_bounds, lemma_rfind_last, lemma_split_all_nonempty, parse_unsigned, parse_unsigned_chars,
    pieces_view, rfind_char_exec, rsplit_once_char, split_all, split_chars, split_once, starts_with, starts_with_chars,
    string_from_chars, trim, trim_chars, lacks, lower_code,
};

verus! {

// ---------------------------------------------------------------------------
// Fixed pieces of text
// ---------------------------------------------------------------------------

/// `"\r\n"`.
pub open spec fn crlf() -> Seq<char> {
    seq!['\r', '\n']
}

/// `"\r\n\r\n"`, the end of a message head.
pub open spec fn blank_line() -> Seq<char> {
    seq!['\r', '\n', '\r', '\n']
}

/// `"HTTP/1."`.
pub open spec fn version_prefix() -> Seq<char> {
    seq!['H', 'T', 'T', 'P', '/', '1', '.']
}

/// `"Content-Length"`.
pub open spec fn content_length_name() -> Seq<char> {
    seq!['C', 'o', 'n', 't', 'e', 'n', 't', '-', 'L', 'e', 'n', 'g', 't', 'h']
}

/// `"Host"`.
pub open spec fn host_name() -> Seq<char> {
    seq!['H', 'o', 's', 't']
}

/// `"CONNECT"`.
pub open spec fn connect_method() -> Seq<char> {
    seq!['C', 'O', 'N', 'N', 'E', 'C', 'T']
}

/// `"http://"`.
pub open spec fn http_scheme() -> Seq<char> {
    seq!['h', 't', 't', 'p', ':', '/', '/']
}

fn crlf_chars() -> (v: Vec<char>)
    ensures
        v@ == crlf(),
{
    vec!['\r', '\n']
}

fn blank_line_chars() -> (v: Vec<char>)
    ensures
        v@ == blank_line(),
{
    vec!['\r', '\n', '\r', '\n']
}

fn version_prefix_chars() -> (v: Vec<char>)
    ensures
        v@ == version_prefix(),
{
    vec!['H', 'T', 'T', 'P', '/', '1', '.']
}

fn content_length_chars() -> (v: Vec<char>)
    ensures
        v@ == content_length_name(),
{
    vec!['C', 'o', 'n', 't', 'e', 'n', 't', '-', 'L', 'e', 'n', 'g', 't', 'h']
}

fn host_chars() -> (v: Vec<char>)
    ensures
        v@ == host_name(),
{
    vec!['H', 'o', 's', 't']
}

fn connect_chars() -> (v: Vec<char>)
    ensures
        v@ == connect_method(),
{
    vec!['C', 'O', 'N', 'N', 'E', 'C', 'T']
}

fn http_scheme_chars() -> (v: Vec<char>)
    ensures
        v@ == http_scheme(),
{
    vec!['h', 't', 't', 'p', ':', '/', '/']
}

// ---------------------------------------------------------------------------
// Requests
// ---------------------------------------------------------------------------

/// An HTTP/1.x request, together with the server it is meant for.
pub struct Request {
    pub method: String,
    pub target: String,
    pub version: u8,
    pub headers: Vec<(String, String)>,
    pub body: Vec<u8>,
    pub host: String,
    pub port: u16,
}

/// Mathematical form of a [`Request`].
pub struct RequestView {
    pub method: Seq<char>,
    pub target: Seq<char>,
    pub version: u8,
    pub headers: Seq<(Seq<char>, Seq<char>)>,
    pub body: Seq<u8>,
    pub host: Seq<char>,
    pub port: u16,
}

impl View for Request {
    type V = RequestView;

    open spec fn view(&self) -> RequestView {
        RequestView {
            method: self.method@,
            target: self.target@,
            version: self.version,
            headers: self.headers.deep_view(),
            body: self.body@,
            host: self.host@,
            port: self.port,
        }
    }
}

/// A copy of a header list.
fn copy_headers(hs: &Vec<(String, String)>) -> (r: Vec<(String, String)>)
    ensures
        r.deep_view() == hs.deep_view(),
{
    let mut r: Vec<(String, String)> = Vec::new();
    let mut k: usize = 0;
    while k < hs.len()
        invariant
            k <= hs@.len(),
            r.deep_view() == hs.deep_view().subrange(0, k as int),
        decreases hs@.len() - k,
    {
        let ghost before = r.deep_view();
        let h = (hs[k].0.clone(), hs[k].1.clone());
        r.push(h);
        assert(r.deep_view() =~= before.push((hs@[k as int].0@, hs@[k as int].1@)));
        assert(hs.deep_view().subrange(0, k + 1) =~= hs.deep_view().subrange(0, k as int).push(
            (hs@[k as int].0@, hs@[k as int].1@),
        ));
        k += 1;
    }
    assert(hs.deep_view().subrange(0, k as int) =~= hs.deep_view());
    r
}

impl Clone for Request {
    /// A copy with the same method, target, version, headers, body and server.
    fn clone(&self) -> (r: Self)
        ensures
            r@ == self@,
    {
        Request {
            method: self.method.clone(),
            target: self.target.clone(),
            version: self.version,
            headers: copy_headers(&self.headers),
            body: vstd::slice::slice_to_vec(self.body.as_slice()),
            host: self.host.clone(),
            port: self.port,
        }
    }
}

// ---------------------------------------------------------------------------
// Specification of the text form of a request
// ---------------------------------------------------------------------------

/// One header as it is written: `name: value\r\n`.
pub open spec fn header_line(h: (Seq<char>, Seq<char>)) -> Seq<char> {
    h.0 + seq![':', ' '] + h.1 + crlf()
}

/// All headers as they are written, in order.
pub open spec fn header_block(hs: Seq<(Seq<char>, Seq<char>)>) -> Seq<char>
    decreases hs.len(),
{
    if hs.len() == 0 {
        Seq::empty()
    } else {
        header_block(hs.drop_last()) + header_line(hs.last())
    }
}

/// The request line and headers of `r`, ending with the blank line:
/// `METHOD TARGET HTTP/1.V\r\n`, the headers, then `\r\n`.
pub open spec fn head_text(r: RequestView) -> Seq<char> {
    r.method + seq![' '] + r.target + seq![' '] + version_prefix() + dec(r.version as nat) + crlf()
        + header_block(r.headers) + crlf()
}

/// The bytes of `r` on the wire: its head in UTF-8, then its body.
pub open spec fn request_bytes(r: RequestView) -> Seq<u8> {
    encode_utf8(head_text(r)) + r.body
}

// ---------------------------------------------------------------------------
// Specification of rebuilding a request from edited text
// ---------------------------------------------------------------------------

/// The head and body of an edited text: split at the first blank line, or
/// all head and no body when there is none.
pub open spec fn split_head_body(data: Seq<char>) -> (Seq<char>, Seq<char>) {
    match split_once(data, blank_line()) {
        Some(p) => p,
        None => (data, Seq::empty()),
    }
}

/// The request line split at its first two spaces (`splitn(3, ' ')`): the
/// method, the target (empty when there is no space) and, when there is a
/// second space, the rest.
pub open spec fn request_line_parts(line: Seq<char>) -> (Seq<char>, Seq<char>, Option<Seq<char>>) {
    match split_once(line, seq![' ']) {
        None => (line, Seq::empty(), None),
        Some((m, rest)) => match split_once(rest, seq![' ']) {
            None => (m, rest, None),
            Some((t, v)) => (m, t, Some(v)),
        },
    }
}

/// The minor version named by the third part of a request line:
/// `HTTP/1.` followed by a number that fits a `u8`, or 1 otherwise.
pub open spec fn edited_version(v: Option<Seq<char>>) -> u8 {
    match v {
        Some(t) => if starts_with(t, version_prefix()) {
            match parse_unsigned(t.subrange(7, t.len() as int), 255) {
                Some(n) => n as u8,
                None => 1,
            }
        } else {
            1
        },
        None => 1,
    }
}

/// A header line: the trimmed text before and after its first `:`, or
/// nothing when the line has no `:`.
pub open spec fn header_of_line(line: Seq<char>) -> Option<(Seq<char>, Seq<char>)> {
    match split_once(line, seq![':']) {
        Some((n, v)) => Some((trim(n), trim(v))),
        None => None,
    }
}

/// The headers that a sequence of lines holds, in order.
pub open spec fn header_lines(lines: Seq<Seq<char>>) -> Seq<(Seq<char>, Seq<char>)>
    decreases lines.len(),
{
    if lines.len() == 0 {
        Seq::empty()
    } else {
        let rest = header_lines(lines.drop_last());
        match header_of_line(lines.last()) {
            Some(h) => rest.push(h),
            None => rest,
        }
    }
}

/// The index of the first header at or after `i` whose name is `name` up
/// to ASCII case.
pub open spec fn find_header_from(hs: Seq<(Seq<char>, Seq<char>)>, name: Seq<char>, i: int) -> Option<int>
    decreases hs.len() - i,
{
    if i < 0 || i >= hs.len() {
        None
    } else if eq_ignore_ascii_case(hs[i].0, name) {
        Some(i)
    } else {
        find_header_from(hs, name, i + 1)
    }
}

/// The index of the first header whose name is `name` up to ASCII case.
pub open spec fn find_header(hs: Seq<(Seq<char>, Seq<char>)>, name: Seq<char>) -> Option<int> {
    find_header_from(hs, name, 0)
}

/// The headers with `Content-Length` set to `len`: the first header of
/// that name gets the value; without one, a header is added at the end
/// when the body is not empty.
pub open spec fn with_content_length(
    hs: Seq<(Seq<char>, Seq<char>)>,
    len: Seq<char>,
    body_nonempty: bool,
) -> Seq<(Seq<char>, Seq<char>)> {
    match find_header(hs, content_length_name()) {
        Some(i) => hs.update(i, (hs[i].0, len)),
        None => if body_nonempty {
            hs.push((content_length_name(), len))
        } else {
            hs
        },
    }
}

/// The request that an edited text describes, for the given server.
pub open spec fn edited_request(data: Seq<char>, host: Seq<char>, port: u16) -> RequestView {
    let (head, body) = split_head_body(data);
    let lines = split_all(head, crlf());
    let (method, target, version) = request_line_parts(lines[0]);
    let body_bytes = encode_utf8(body);
    RequestView {
        method,
        target,
        version: edited_version(version),
        headers: with_content_length(
            header_lines(lines.subrange(1, lines.len() as int)),
            dec(body_bytes.len()),
            body.len() > 0,
        ),
        body: body_bytes,
        host,
        port,
    }
}

// ---------------------------------------------------------------------------
// Helpers for rebuilding a request from edited text
// ---------------------------------------------------------------------------

/// `str::split_once` on one character, for character vectors.
fn split_once_char(s: &[char], c: char) -> (r: Option<(Vec<char>, Vec<char>)>)
    ensures
        match r {
            Some((a, b)) => split_once(s@, seq![c]) == Some((a@, b@)),
            None => split_once(s@, seq![c]) is None,
        },
{
    let pat: Vec<char> = vec![c];
    assert(pat@ =~= seq![c]);
    match find_chars(s, pat.as_slice()) {
        Some(i) => {
            proof {
                lemma_find_from_bounds(s@, pat@, 0);
            }
            let n = s.len();
            Some((copy_range(s, 0, i), copy_range(s, i + 1, n)))
        },
        None => None,
    }
}

/// The method, target and minor version of an edited request line.
fn parse_request_line(line: &[char]) -> (r: (String, String, u8))
    ensures
        r.0@ == request_line_parts(line@).0,
        r.1@ == request_line_parts(line@).1,
        r.2 == edited_version(request_line_parts(line@).2),
{
    match split_once_char(line, ' ') {
        None => (string_from_chars(line), String::new(), 1),
        Some((m, rest)) => match split_once_char(rest.as_slice(), ' ') {
            None => (string_from_chars(m.as_slice()), string_from_chars(rest.as_slice()), 1),
            Some((t, v)) => {
                let prefix = version_prefix_chars();
                let mut version: u8 = 1;
                if starts_with_chars(v.as_slice(), prefix.as_slice()) {
                    let digits = copy_range(v.as_slice(), 7, v.len());
                    if let Some(n) = parse_unsigned_chars(digits.as_slice(), 255) {
                        version = n as u8;
                    }
                }
                (string_from_chars(m.as_slice()), string_from_chars(t.as_slice()), version)
            },
        },
    }
}

/// The header on an edited line, if the line has a `:`.
fn header_from_line(line: &[char]) -> (r: Option<(String, String)>)
    ensures
        match r {
            Some(h) => header_of_line(line@) == Some((h.0@, h.1@)),
            None => header_of_line(line@) is None,
        },
{
    match split_once_char(line, ':') {
        Some((n, v)) => {
            let name = trim_chars(n.as_slice());
            let value = trim_chars(v.as_slice());
            Some((string_from_chars(name.as_slice()), string_from_chars(value.as_slice())))
        },
        None => None,
    }
}

/// A header found from `i` lies at or after `i`, inside the headers, and
/// carries the name.
pub proof fn lemma_find_header_bounds(hs: Seq<(Seq<char>, Seq<char>)>, name: Seq<char>, i: int)
    ensures
        find_header_from(hs, name, i) matches Some(k) ==> i <= k < hs.len() && eq_ignore_ascii_case(
            hs[k].0,
            name,
        ),
    decreases hs.len() - i,
{
    if i >= 0 && i < hs.len() && !eq_ignore_ascii_case(hs[i].0, name) {
        lemma_find_header_bounds(hs, name, i + 1);
    }
}

/// The index of the first header named `name` up to ASCII case.
pub fn find_header_index(hs: &[(String, String)], name: &[char]) -> (r: Option<usize>)
    ensures
        match r {
            Some(i) => find_header(hs.deep_view(), name@) == Some(i as int),
            None => find_header(hs.deep_view(), name@) is None,
        },
{
    let mut i: usize = 0;
    while i < hs.len()
        invariant
            i <= hs@.len(),
            find_header(hs.deep_view(), name@) == find_header_from(hs.deep_view(), name@, i as int),
        decreases hs@.len() - i,
    {
        let n = chars_of(hs[i].0.as_str());
        assert(hs.deep_view()[i as int].0 == hs@[i as int].0@);
        if eq_ignore_case(n.as_slice(), name) {
            return Some(i);
        }
        i += 1;
    }
    None
}

impl Request {
    /// The request line and headers as text, ending with the blank line.
    pub fn head_chars(&self) -> (v: Vec<char>)
        ensures
            v@ == head_text(self@),
    {
        let mut v = chars_of(self.method.as_str());
        v.push(' ');
        let mut t = chars_of(self.target.as_str());
        v.append(&mut t);
        v.push(' ');
        let mut p = version_prefix_chars();
        v.append(&mut p);
        let mut d = decimal(self.version as u128);
        v.append(&mut d);
        v.push('\r');
        v.push('\n');
        let ghost hs = self.headers.deep_view();
        let ghost start = v@;
        let mut k: usize = 0;
        assert(hs.subrange(0, 0) =~= Seq::<(Seq<char>, Seq<char>)>::empty());
        assert(v@ =~= start + header_block(hs.subrange(0, 0)));
        while k < self.headers.len()
            invariant
                k <= self.headers@.len(),
                hs == self.headers.deep_view(),
                v@ == start + header_block(hs.subrange(0, k as int)),
            decreases self.headers@.len() - k,
        {
            assert(hs.subrange(0, k + 1).drop_last() =~= hs.subrange(0, k as int));
            assert(hs[k as int] == (self.headers@[k as int].0@, self.headers@[k as int].1@));
            let mut name = chars_of(self.headers[k].0.as_str());
            let mut value = chars_of(self.headers[k].1.as_str());
            let ghost before = v@;
            v.append(&mut name);
            v.push(':');
            v.push(' ');
            v.append(&mut value);
            v.push('\r');
            v.push('\n');
            assert(v@ =~= before + header_line(hs[k as int]));
            k += 1;
        }
        assert(hs.subrange(0, k as int) =~= hs);
        v.push('\r');
        v.push('\n');
        assert(v@ =~= head_text(self@));
        v
    }

    /// The server's address, `host:port`.
    pub fn server_address(&self) -> (s: String)
        ensures
            s@ == self.host@ + seq![':'] + dec(self.port as nat),
    {
        let mut v = chars_of(self.host.as_str());
        v.push(':');
        let mut d = decimal(self.port as u128);
        v.append(&mut d);
        string_from_chars(v.as_slice())
    }

    /// The caption naming the server, ` Host: host:port `, when the host is
    /// known.
    pub fn host_title(&self) -> (s: Option<String>)
        ensures
            match s {
                Some(t) => self.host@.len() > 0 && t@ == seq![' ', 'H', 'o', 's', 't', ':', ' ']
                    + self.host@ + seq![':'] + dec(self.port as nat) + seq![' '],
                None => self.host@.len() == 0,
            },
    {
        if self.host.as_str().is_empty() {
            None
        } else {
            let mut v: Vec<char> = vec![' ', 'H', 'o', 's', 't', ':', ' '];
            let mut h = chars_of(self.host.as_str());
            v.append(&mut h);
            v.push(':');
            let mut d = decimal(self.port as u128);
            v.append(&mut d);
            v.push(' ');
            Some(string_from_chars(v.as_slice()))
        }
    }

    /// The request as it goes on the wire.
    pub fn to_bytes(&self) -> (b: Vec<u8>)
        ensures
            b@ == request_bytes(self@),
    {
        let head = self.head_chars();
        let text = string_from_chars(head.as_slice());
        let mut bytes = vstd::slice::slice_to_vec(text.as_str().as_bytes());
        let mut body = vstd::slice::slice_to_vec(self.body.as_slice());
        bytes.append(&mut body);
        bytes
    }

    /// The request as text, with invalid UTF-8 in the body replaced: the
    /// head, then the body's text when the body is valid UTF-8.
    pub fn to_str(&self) -> (s: String)
        ensures
            s@ == utf8_lossy(request_bytes(self@)),
            valid_utf8(self.body@) ==> s@ == head_text(self@) + decode_utf8(self.body@),
            valid_utf8(self.body@) ==> encode_utf8(s@) == request_bytes(self@),
            !valid_utf8(self.body@) ==> s@.contains('\u{FFFD}'),
    {
        let bytes = self.to_bytes();
        proof {
            if valid_utf8(self.body@) {
                lemma_decode_after_text(head_text(self@), self.body@);
                decode_utf8_encode_utf8(request_bytes(self@));
            } else {
                lemma_valid_after_text(head_text(self@), self.body@);
            }
        }
        lossy_text(bytes.as_slice())
    }

    /// Rebuilds a request from the text that the user edited, for the given
    /// server. The text is split at its first blank line into head and
    /// body; the head's first line gives method, target and version, every
    /// later line with a `:` gives a header, and `Content-Length` is set to
    /// the body's length in bytes.
    pub fn from_edited(data: &str, host: String, port: u16) -> (r: Self)
        ensures
            r@ == edited_request(data@, host@, port),
    {
        let chars = chars_of(data);
        let sep = blank_line_chars();
        let (head, body) = match find_chars(chars.as_slice(), sep.as_slice()) {
            Some(i) => {
                proof {
                    lemma_find_from_bounds(chars@, sep@, 0);
                }
                let n = chars.len();
                (copy_range(chars.as_slice(), 0, i), copy_range(chars.as_slice(), i + 4, n))
            },
            None => (chars, Vec::new()),
        };
        assert(sep@.len() == 4);
        assert(split_head_body(data@) == (head@, body@));
        let nl = crlf_chars();
        let lines = split_chars(head.as_slice(), nl.as_slice());
        proof {
            lemma_split_all_nonempty(head@, crlf());
        }
        let ghost all = pieces_view(lines@);
        assert(all[0] == lines@[0]@);
        let (method, target, version) = parse_request_line(lines[0].as_slice());
        let mut headers: Vec<(String, String)> = Vec::new();
        let mut k: usize = 1;
        assert(all.subrange(1, 1) =~= Seq::<Seq<char>>::empty());
        while k < lines.len()
            invariant
                1 <= k <= lines@.len(),
                all == pieces_view(lines@),
                headers.deep_view() == header_lines(all.subrange(1, k as int)),
            decreases lines@.len() - k,
        {
            assert(all.subrange(1, k + 1).drop_last() =~= all.subrange(1, k as int));
            assert(all.subrange(1, k + 1).last() == lines@[k as int]@);
            let ghost before = headers.deep_view();
            if let Some(h) = header_from_line(lines[k].as_slice()) {
                headers.push(h);
                assert(headers.deep_view() =~= before.push((h.0@, h.1@)));
            }
            k += 1;
        }
        assert(all.subrange(1, lines@.len() as int) == all.subrange(1, k as int));
        let body_text = string_from_chars(body.as_slice());
        let body_bytes = vstd::slice::slice_to_vec(body_text.as_str().as_bytes());
        let len_text = string_from_chars(decimal(body_bytes.len() as u128).as_slice());
        let cl = content_length_chars();
        let ghost hs = headers.deep_view();
        match find_header_index(headers.as_slice(), cl.as_slice()) {
            Some(i) => {
                proof {
                    lemma_find_header_bounds(hs, content_length_name(), 0);
                }
                let name = headers[i].0.clone();
                headers.set(i, (name, len_text));
                assert(headers.deep_view() =~= hs.update(i as int, (hs[i as int].0, len_text@)));
            },
            None => {
                if body.len() > 0 {
                    headers.push((string_from_chars(cl.as_slice()), len_text));
                    assert(headers.deep_view() =~= hs.push((content_length_name(), len_text@)));
                }
            },
        }
        Request { method, target, version, headers, body: body_bytes, host, port }
    }
}

// ---------------------------------------------------------------------------
// Reading a request from its bytes
// ---------------------------------------------------------------------------

/// Why a request could not be read.
pub enum RequestError {
    /// The bytes are not an HTTP request; the text is the parser's reason.
    Malformed(String),
    /// The bytes end before the request's head does.
    Incomplete,
    MissingMethod,
    MissingTarget,
    MissingVersion,
    /// An absolute target is not a URL; the text is the URL parser's reason.
    InvalidUrl(String),
    /// An absolute target names no host.
    UrlWithoutHost,
    /// There is no `Host` header.
    MissingHost,
    /// The `Host` header's port is not a number from 0 to 65535.
    InvalidPort,
    /// A `CONNECT` target has no `:`.
    InvalidConnectTarget,
    /// A `CONNECT` target's port is not a number from 0 to 65535.
    InvalidConnectPort,
}

/// Mathematical form of a [`RequestError`].
pub enum RequestErrorView {
    Malformed(Seq<char>),
    Incomplete,
    MissingMethod,
    MissingTarget,
    MissingVersion,
    InvalidUrl(Seq<char>),
    UrlWithoutHost,
    MissingHost,
    InvalidPort,
    InvalidConnectTarget,
    InvalidConnectPort,
}

impl View for RequestError {
    type V = RequestErrorView;

    open spec fn view(&self) -> RequestErrorView {
        match self {
            RequestError::Malformed(e) => RequestErrorView::Malformed(e@),
            RequestError::Incomplete => RequestErrorView::Incomplete,
            RequestError::MissingMethod => RequestErrorView::MissingMethod,
            RequestError::MissingTarget => RequestErrorView::MissingTarget,
            RequestError::MissingVersion => RequestErrorView::MissingVersion,
            RequestError::InvalidUrl(e) => RequestErrorView::InvalidUrl(e@),
            RequestError::UrlWithoutHost => RequestErrorView::UrlWithoutHost,
            RequestError::MissingHost => RequestErrorView::MissingHost,
            RequestError::InvalidPort => RequestErrorView::InvalidPort,
            RequestError::InvalidConnectTarget => RequestErrorView::InvalidConnectTarget,
            RequestError::InvalidConnectPort => RequestErrorView::InvalidConnectPort,
        }
    }
}

/// The text that reports an error: the parser's reason follows
/// `Invalid HTTP request: ` or `Invalid URL: `; every other error has a
/// fixed sentence.
pub open spec fn error_message(e: RequestErrorView) -> Seq<char> {
    match e {
        RequestErrorView::Malformed(t) => "Invalid HTTP request: "@ + t,
        RequestErrorView::Incomplete => "Incomplete HTTP request"@,
        RequestErrorView::MissingMethod => "Missing HTTP method"@,
        RequestErrorView::MissingTarget => "Missing request target"@,
        RequestErrorView::MissingVersion => "Missing HTTP version"@,
        RequestErrorView::InvalidUrl(t) => "Invalid URL: "@ + t,
        RequestErrorView::UrlWithoutHost => "URL has no host"@,
        RequestErrorView::MissingHost => "Missing Host"@,
        RequestErrorView::InvalidPort => "Invalid port"@,
        RequestErrorView::InvalidConnectTarget => "Invalid CONNECT target"@,
        RequestErrorView::InvalidConnectPort => "Invalid CONNECT port"@,
    }
}

impl RequestError {
    /// The text that reports this error.
    pub fn message(&self) -> (s: String)
        ensures
            s@ == error_message(self@),
    {
        match self {
            RequestError::Malformed(t) => {
                let mut v = chars_of("Invalid HTTP request: ");
                let mut w = chars_of(t.as_str());
                v.append(&mut w);
                string_from_chars(v.as_slice())
            },
            RequestError::Incomplete => "Incomplete HTTP request".to_owned(),
            RequestError::MissingMethod => "Missing HTTP method".to_owned(),
            RequestError::MissingTarget => "Missing request target".to_owned(),
            RequestError::MissingVersion => "Missing HTTP version".to_owned(),
            RequestError::InvalidUrl(t) => {
                let mut v = chars_of("Invalid URL: ");
                let mut w = chars_of(t.as_str());
                v.append(&mut w);
                string_from_chars(v.as_slice())
            },
            RequestError::UrlWithoutHost => "URL has no host".to_owned(),
            RequestError::MissingHost => "Missing Host".to_owned(),
            RequestError::InvalidPort => "Invalid port".to_owned(),
            RequestError::InvalidConnectTarget => "Invalid CONNECT target".to_owned(),
            RequestError::InvalidConnectPort => "Invalid CONNECT port".to_owned(),
        }
    }
}

/// Mathematical form of a read request, or why it failed.
pub open spec fn request_result_view(r: Result<Request, RequestError>) -> Result<RequestView, RequestErrorView> {
    match r {
        Ok(req) => Ok(req@),
        Err(e) => Err(e@),
    }
}

/// Mathematical form of a server address, or why it could not be found.
pub open spec fn address_result_view(r: Result<(String, u16), RequestError>) -> Result<(Seq<char>, u16), RequestErrorView> {
    match r {
        Ok((h, p)) => Ok((h@, p)),
        Err(e) => Err(e@),
    }
}

/// Mathematical form of a normalized target and server address.
pub open spec fn target_result_view(r: Result<(String, String, u16), RequestError>) -> Result<(Seq<char>, Seq<char>, u16), RequestErrorView> {
    match r {
        Ok((t, h, p)) => Ok((t@, h@, p)),
        Err(e) => Err(e@),
    }
}

/// Host and port of a `CONNECT` target `host:port`, split at its last `:`.
pub open spec fn connect_address(target: Seq<char>) -> Result<(Seq<char>, u16), RequestErrorView> {
    match rsplit_once_char(target, ':') {
        None => Err(RequestErrorView::InvalidConnectTarget),
        Some((h, p)) => match parse_unsigned(p, 65535) {
            Some(n) => Ok((h, n as u16)),
            None => Err(RequestErrorView::InvalidConnectPort),
        },
    }
}

/// Host and port named by the first `Host` header: split at its last `:`
/// when it has one, else port 80.
pub open spec fn host_address(hs: Seq<(Seq<char>, Seq<char>)>) -> Result<(Seq<char>, u16), RequestErrorView> {
    match find_header(hs, host_name()) {
        None => Err(RequestErrorView::MissingHost),
        Some(i) => {
            let v = hs[i].1;
            match rsplit_once_char(v, ':') {
                Some((h, p)) => match parse_unsigned(p, 65535) {
                    Some(n) => Ok((h, n as u16)),
                    None => Err(RequestErrorView::InvalidPort),
                },
                None => Ok((v, 80)),
            }
        },
    }
}

/// The origin-form target, host and port of an absolute `http://` URL:
/// the path (`/` when empty) with `?query` when there is one, and the
/// URL's port or 80.
pub open spec fn url_target(u: UrlParseView) -> Result<(Seq<char>, Seq<char>, u16), RequestErrorView> {
    match u {
        UrlParseView::Invalid(e) => Err(RequestErrorView::InvalidUrl(e)),
        UrlParseView::Parsed(parts) => match parts.host {
            None => Err(RequestErrorView::UrlWithoutHost),
            Some(h) => {
                let port: u16 = match parts.port {
                    Some(p) => p,
                    None => 80,
                };
                let path = if parts.path.len() == 0 {
                    seq!['/']
                } else {
                    parts.path
                };
                let t = match parts.query {
                    Some(q) => path + seq!['?'] + q,
                    None => path,
                };
                Ok((t, h, port))
            },
        },
    }
}

/// Target, host and port of a request that is not `CONNECT`: an absolute
/// `http://` target is reduced to origin form and names the server;
/// otherwise the target stays and the `Host` header names the server.
pub open spec fn normalized_target(target: Seq<char>, hs: Seq<(Seq<char>, Seq<char>)>) -> Result<(Seq<char>, Seq<char>, u16), RequestErrorView> {
    if starts_with(target, http_scheme()) {
        url_target(url_parse(target))
    } else {
        match host_address(hs) {
            Ok((h, p)) => Ok((target, h, p)),
            Err(e) => Err(e),
        }
    }
}

/// The headers of a parsed head with their values decoded and trimmed.
pub open spec fn decoded_headers(raw: Seq<(Seq<char>, Seq<u8>)>) -> Seq<(Seq<char>, Seq<char>)> {
    raw.map_values(|h: (Seq<char>, Seq<u8>)| (h.0, trim(utf8_lossy(h.1))))
}

/// The request that a complete head and the whole buffer make.
pub open spec fn request_from_head(h: RequestHeadView, data: Seq<u8>) -> Result<RequestView, RequestErrorView> {
    if h.method is None {
        Err(RequestErrorView::MissingMethod)
    } else if h.path is None {
        Err(RequestErrorView::MissingTarget)
    } else if h.version is None {
        Err(RequestErrorView::MissingVersion)
    } else {
        let method = h.method->0;
        let target = h.path->0;
        let version = h.version->0;
        let headers = decoded_headers(h.headers);
        let body = data.subrange(h.size as int, data.len() as int);
        if eq_ignore_ascii_case(method, connect_method()) {
            match connect_address(target) {
                Ok((host, port)) => Ok(RequestView { method, target, version, headers, body, host, port }),
                Err(e) => Err(e),
            }
        } else {
            match normalized_target(target, headers) {
                Ok((t, host, port)) => Ok(RequestView { method, target: t, version, headers, body, host, port }),
                Err(e) => Err(e),
            }
        }
    }
}

/// The request that a buffer holds, as read through `httparse`.
pub open spec fn request_from_bytes(data: Seq<u8>) -> Result<RequestView, RequestErrorView> {
    match httparse_request(data) {
        RequestParseView::Invalid(e) => Err(RequestErrorView::Malformed(e)),
        RequestParseView::Partial => Err(RequestErrorView::Incomplete),
        RequestParseView::Complete(h) => request_from_head(h, data),
    }
}

/// A server address written as `host:port` reads back as a `CONNECT`
/// target to the same host and port, whatever the host holds.
pub proof fn lemma_connect_address_round_trip(host: Seq<char>, port: u16)
    ensures
        connect_address(host + seq![':'] + dec(port as nat)) == Ok::<(Seq<char>, u16), RequestErrorView>((host, port)),
{
    let t = host + seq![':'] + dec(port as nat);
    lemma_dec_lacks(port as nat, ':');
    lemma_rfind_last(host, ':', dec(port as nat));
    assert(t.subrange(0, host.len() as int) =~= host);
    assert(t.subrange((host.len() + 1) as int, t.len() as int) =~= dec(port as nat));
    lemma_parse_dec(port as nat, 65535);
}

/// A `Host` header written as `host:port` names that host and port.
pub proof fn lemma_host_header_round_trip(host: Seq<char>, port: u16)
    ensures
        host_address(seq![(host_name(), host + seq![':'] + dec(port as nat))]) == Ok::<(Seq<char>, u16), RequestErrorView>((host, port)),
{
    let hs = seq![(host_name(), host + seq![':'] + dec(port as nat))];
    assert(eq_ignore_ascii_case(hs[0].0, host_name()));
    assert(find_header(hs, host_name()) == Some(0int));
    lemma_connect_address_round_trip(host, port);
}

/// An absolute `http://` target names the server by itself: whatever
/// headers come with it, the target becomes the URL's path (`/` when
/// empty) followed by `?` and the query when there is one, and host and
/// port are the URL's (port 80 when it names none); a `Host` header plays
/// no part.
pub proof fn lemma_absolute_target(
    target: Seq<char>,
    hs1: Seq<(Seq<char>, Seq<char>)>,
    hs2: Seq<(Seq<char>, Seq<char>)>,
    u: UrlPartsView,
)
    requires
        starts_with(target, http_scheme()),
    ensures
        normalized_target(target, hs1) == normalized_target(target, hs2),
        url_parse(target) == UrlParseView::Parsed(u) && u.host is Some ==> normalized_target(
            target,
            hs1,
        ) == Ok::<(Seq<char>, Seq<char>, u16), RequestErrorView>(
            (
                (if u.path.len() == 0 {
                    seq!['/']
                } else {
                    u.path
                }) + match u.query {
                    Some(q) => seq!['?'] + q,
                    None => Seq::empty(),
                },
                u.host->0,
                match u.port {
                    Some(p) => p,
                    None => 80,
                },
            ),
        ),
{
    if url_parse(target) == UrlParseView::Parsed(u) {
        let path = if u.path.len() == 0 {
            seq!['/']
        } else {
            u.path
        };
        match u.query {
            Some(q) => {
                assert(path + seq!['?'] + q =~= path + (seq!['?'] + q));
            },
            None => {
                assert(path + Seq::<char>::empty() =~= path);
            },
        }
    }
}

/// A request whose target is an absolute `http://` URL (and whose method
/// is not `CONNECT`) is read with the URL's path and query as its target
/// and the URL's host and port as its server, whatever headers it has.
pub proof fn lemma_absolute_request(h: RequestHeadView, data: Seq<u8>, t: Seq<char>, u: UrlPartsView)
    requires
        h.method is Some,
        !eq_ignore_ascii_case(h.method->0, connect_method()),
        h.path == Some(t),
        h.version is Some,
        starts_with(t, http_scheme()),
        url_parse(t) == UrlParseView::Parsed(u),
        u.host is Some,
    ensures
        request_from_head(h, data) matches Ok(r) && r.target == (if u.path.len() == 0 {
            seq!['/']
        } else {
            u.path
        }) + match u.query {
            Some(q) => seq!['?'] + q,
            None => Seq::empty(),
        } && r.host == u.host->0 && r.port == match u.port {
            Some(p) => p,
            None => 80u16,
        } && r.method == h.method->0 && r.headers == decoded_headers(h.headers),
{
    lemma_absolute_target(t, decoded_headers(h.headers), decoded_headers(h.headers), u);
}

/// A `Content-Length` header declares any length that a `usize` holds:
/// when the last header is `Content-Length` with the decimal notation of
/// `n`, that is the declared length, and a message with a complete head is
/// complete exactly when at least `n` bytes follow the head.
pub proof fn lemma_declared_length(
    hs: Seq<(Seq<char>, Seq<u8>)>,
    value: Seq<u8>,
    n: nat,
    ignore_case: bool,
    size: nat,
    total: nat,
)
    requires
        utf8_lossy(value) == dec(n),
        n <= usize::MAX,
        size <= total,
    ensures
        declared_length(hs.push((content_length_name(), value)), ignore_case) == Some(n),
        progress_after_head(size, hs.push((content_length_name(), value)), total, ignore_case) == if total
            - size >= n {
            ReadProgressView::Done
        } else {
            ReadProgressView::NeedMore
        },
{
    let g = hs.push((content_length_name(), value));
    assert(g.last() == (content_length_name(), value));
    assert(eq_ignore_ascii_case(content_length_name(), content_length_name()));
    lemma_parse_dec(n, usize::MAX as nat);
}

/// Searching the headers skips those that do not carry the name.
proof fn lemma_find_header_skip(hs: Seq<(Seq<char>, Seq<char>)>, name: Seq<char>, i: int, k: int)
    requires
        0 <= i <= k <= hs.len(),
        forall|j: int| i <= j < k ==> !eq_ignore_ascii_case(#[trigger] hs[j].0, name),
    ensures
        find_header_from(hs, name, i) == find_header_from(hs, name, k),
    decreases k - i,
{
    if i < k {
        lemma_find_header_skip(hs, name, i + 1, k);
    }
}

/// The first `Host` header, in any letter case, names the server; later
/// ones play no part. A host without `:` is on port 80, and without any
/// `Host` header there is no server.
pub proof fn lemma_first_host_header(
    before: Seq<(Seq<char>, Seq<char>)>,
    name: Seq<char>,
    value: Seq<char>,
    after: Seq<(Seq<char>, Seq<char>)>,
)
    requires
        forall|k: int| 0 <= k < before.len() ==> !eq_ignore_ascii_case(#[trigger] before[k].0, host_name()),
        eq_ignore_ascii_case(name, host_name()),
    ensures
        host_address(before + seq![(name, value)] + after) == host_address(seq![(host_name(), value)]),
        lacks(value, ':') ==> host_address(before + seq![(name, value)] + after) == Ok::<
            (Seq<char>, u16),
            RequestErrorView,
        >((value, 80)),
        host_address(before) == Err::<(Seq<char>, u16), RequestErrorView>(RequestErrorView::MissingHost),
{
    let hs = before + seq![(name, value)] + after;
    let n = before.len() as int;
    assert forall|j: int| 0 <= j < n implies !eq_ignore_ascii_case(#[trigger] hs[j].0, host_name()) by {
        assert(hs[j] == before[j]);
    }
    lemma_find_header_skip(hs, host_name(), 0, n);
    assert(hs[n] == (name, value));
    let one = seq![(host_name(), value)];
    assert(eq_ignore_ascii_case(one[0].0, host_name()));
    assert(find_header(one, host_name()) == Some(0int));
    lemma_find_header_skip(before, host_name(), 0, n);
    if lacks(value, ':') {
        lemma_rfind_char_bounds(value, ':');
    }
}

/// A complete head makes a request with the head's method and version, its
/// headers in order with their values decoded and trimmed, and everything
/// after the head as the body; a `CONNECT` target stays as it came, and so
/// does a target that is not an absolute `http://` URL.
pub proof fn lemma_request_from_head_parts(h: RequestHeadView, data: Seq<u8>)
    ensures
        request_from_head(h, data) matches Ok(r) ==> {
            &&& r.method == h.method->0
            &&& r.version == h.version->0
            &&& r.headers.len() == h.headers.len()
            &&& forall|k: int| 0 <= k < h.headers.len() ==> #[trigger] r.headers[k] == (
                h.headers[k].0,
                trim(utf8_lossy(h.headers[k].1)),
            )
            &&& r.body == data.subrange(h.size as int, data.len() as int)
            &&& eq_ignore_ascii_case(r.method, connect_method()) ==> r.target == h.path->0 && Ok::<
                (Seq<char>, u16),
                RequestErrorView,
            >((r.host, r.port)) == connect_address(h.path->0)
            &&& !eq_ignore_ascii_case(r.method, connect_method()) && !starts_with(h.path->0, http_scheme())
                ==> r.target == h.path->0 && Ok::<(Seq<char>, u16), RequestErrorView>((r.host, r.port))
                == host_address(r.headers)
        },
{
}

/// Responses count only a header named exactly `Content-Length`; requests
/// count it in any letter case.
pub proof fn lemma_length_name_case(hs: Seq<(Seq<char>, Seq<u8>)>, value: Seq<u8>, n: nat)
    requires
        utf8_lossy(value) == dec(n),
        n <= usize::MAX,
    ensures
        ({
            let lower = seq!['c', 'o', 'n', 't', 'e', 'n', 't', '-', 'l', 'e', 'n', 'g', 't', 'h'];
            &&& declared_length(hs.push((lower, value)), false) == declared_length(hs, false)
            &&& declared_length(hs.push((lower, value)), true) == Some(n)
        }),
{
    let lower = seq!['c', 'o', 'n', 't', 'e', 'n', 't', '-', 'l', 'e', 'n', 'g', 't', 'h'];
    let g = hs.push((lower, value));
    assert(g.last() == (lower, value));
    assert(g.drop_last() =~= hs);
    assert(lower[0] != content_length_name()[0]);
    assert(lower != content_length_name());
    assert(eq_ignore_ascii_case(lower, content_length_name())) by {
        assert forall|i: int| 0 <= i < lower.len() implies #[trigger] lower_code(lower[i]) == lower_code(
            content_length_name()[i],
        ) by {
            assert(lower.len() == 14);
        }
    }
    lemma_parse_dec(n, usize::MAX as nat);
}

/// The wire form of a request: `METHOD TARGET HTTP/1.V`, a line end, each
/// header as `name: value` and a line end, in order, then an empty line,
/// then the body as it is.
pub proof fn lemma_wire_format(r: RequestView, h: (Seq<char>, Seq<char>))
    ensures
        header_block(Seq::empty()) == Seq::<char>::empty(),
        header_block(r.headers.push(h)) == header_block(r.headers) + h.0 + seq![':', ' '] + h.1 + seq![
            '\r',
            '\n',
        ],
        head_text(r) == r.method + seq![' '] + r.target + seq![' ', 'H', 'T', 'T', 'P', '/', '1', '.']
            + dec(r.version as nat) + seq!['\r', '\n'] + header_block(r.headers) + seq!['\r', '\n'],
        request_bytes(r) == encode_utf8(head_text(r)) + r.body,
{
    assert(r.headers.push(h).drop_last() =~= r.headers);
    assert(r.method + seq![' '] + r.target + seq![' '] + version_prefix() =~= r.method + seq![' ']
        + r.target + seq![' ', 'H', 'T', 'T', 'P', '/', '1', '.']);
}

/// A request is complete once its body reaches the length that the last
/// `Content-Length` header (in any letter case) declares; a response counts
/// only a header named exactly `Content-Length`.
pub proof fn lemma_progress_by_length(
    data: Seq<u8>,
    req: RequestHeadView,
    res: ResponseHeadView,
    value: Seq<u8>,
    n: nat,
)
    requires
        utf8_lossy(value) == dec(n),
        n <= usize::MAX,
        req.size <= data.len(),
        res.size <= data.len(),
        req.headers.len() > 0,
        req.headers.last() == (seq!['c', 'o', 'n', 't', 'e', 'n', 't', '-', 'l', 'e', 'n', 'g', 't', 'h'], value),
        res.headers.len() > 0,
        res.headers.last() == (content_length_name(), value),
    ensures
        httparse_request(data) == RequestParseView::Complete(req) ==> request_progress_spec(data) == if data.len()
            - req.size >= n {
            ReadProgressView::Done
        } else {
            ReadProgressView::NeedMore
        },
        httparse_response(data) == ResponseParseView::Complete(res) ==> response_progress_spec(data)
            == if data.len() - res.size >= n {
            ReadProgressView::Done
        } else {
            ReadProgressView::NeedMore
        },
{
    assert(req.headers =~= req.headers.drop_last().push(req.headers.last()));
    assert(res.headers =~= res.headers.drop_last().push(res.headers.last()));
    lemma_length_name_case(req.headers.drop_last(), value, n);
    lemma_declared_length(res.headers.drop_last(), value, n, false, res.size, data.len());
}

impl Request {
    /// Host and port of a `CONNECT` target `host:port`.
    pub fn parse_connect_target(target: &str) -> (r: Result<(String, u16), RequestError>)
        ensures
            address_result_view(r) == connect_address(target@),
    {
        let t = chars_of(target);
        proof {
            lemma_rfind_char_bounds(t@, ':');
        }
        match rfind_char_exec(t.as_slice(), ':') {
            None => Err(RequestError::InvalidConnectTarget),
            Some(i) => {
                let n = t.len();
                let host = copy_range(t.as_slice(), 0, i);
                let port = copy_range(t.as_slice(), i + 1, n);
                match parse_unsigned_chars(port.as_slice(), 65535) {
                    Some(p) => Ok((string_from_chars(host.as_slice()), p as u16)),
                    None => Err(RequestError::InvalidConnectPort),
                }
            },
        }
    }

    /// Host and port named by the first `Host` header.
    pub fn parse_host(headers: &[(String, String)]) -> (r: Result<(String, u16), RequestError>)
        ensures
            address_result_view(r) == host_address(headers.deep_view()),
    {
        let name = host_chars();
        match find_header_index(headers, name.as_slice()) {
            None => Err(RequestError::MissingHost),
            Some(i) => {
                proof {
                    lemma_find_header_bounds(headers.deep_view(), host_name(), 0);
                }
                assert(headers.deep_view()[i as int].1 == headers@[i as int].1@);
                let v = chars_of(headers[i].1.as_str());
                proof {
                    lemma_rfind_char_bounds(v@, ':');
                }
                match rfind_char_exec(v.as_slice(), ':') {
                    Some(j) => {
                        let n = v.len();
                        let host = copy_range(v.as_slice(), 0, j);
                        let port = copy_range(v.as_slice(), j + 1, n);
                        match parse_unsigned_chars(port.as_slice(), 65535) {
                            Some(p) => Ok((string_from_chars(host.as_slice()), p as u16)),
                            None => Err(RequestError::InvalidPort),
                        }
                    },
                    None => Ok((headers[i].1.clone(), 80)),
                }
            },
        }
    }

    /// Origin-form target, host and port of a parsed absolute URL.
    pub fn target_from_url(u: UrlParse) -> (r: Result<(String, String, u16), RequestError>)
        ensures
            target_result_view(r) == url_target(u@),
    {
        let ghost uv = u@;
        match u {
            UrlParse::Invalid(e) => {
                let r = Err(RequestError::InvalidUrl(e));
                assert(target_result_view(r) == url_target(uv));
                r
            },
            UrlParse::Parsed(parts) => {
                let ghost pv = parts@;
                assert(uv == UrlParseView::Parsed(pv));
                match parts.host {
                    None => {
                        let r = Err(RequestError::UrlWithoutHost);
                        assert(target_result_view(r) == url_target(uv));
                        r
                    },
                    Some(h) => {
                        let port: u16 = match parts.port {
                            Some(p) => p,
                            None => 80,
                        };
                        let mut t = chars_of(parts.path.as_str());
                        if t.len() == 0 {
                            t.push('/');
                        }
                        let ghost path = t@;
                        assert(path =~= (if pv.path.len() == 0 {
                            seq!['/']
                        } else {
                            pv.path
                        }));
                        if let Some(q) = parts.query {
                            t.push('?');
                            let mut qc = chars_of(q.as_str());
                            t.append(&mut qc);
                            assert(t@ =~= path + seq!['?'] + q@);
                        }
                        let r = Ok((string_from_chars(t.as_slice()), h, port));
                        assert(target_result_view(r) == url_target(uv));
                        r
                    },
                }
            },
        }
    }

    /// Target, host and port of a request that is not `CONNECT`.
    pub fn normalize_target(target: &str, headers: &[(String, String)]) -> (r: Result<(String, String, u16), RequestError>)
        ensures
            target_result_view(r) == normalized_target(target@, headers.deep_view()),
    {
        let t = chars_of(target);
        let scheme = http_scheme_chars();
        if starts_with_chars(t.as_slice(), scheme.as_slice()) {
            Self::target_from_url(parse_url(target))
        } else {
            match Self::parse_host(headers) {
                Ok((host, port)) => Ok((string_from_chars(t.as_slice()), host, port)),
                Err(e) => Err(e),
            }
        }
    }

    /// The request that a complete head, read from `data`, describes.
    pub fn from_head(head: RequestHead, data: &[u8]) -> (r: Result<Self, RequestError>)
        requires
            head.size <= data@.len(),
        ensures
            request_result_view(r) == request_from_head(head@, data@),
    {
        let ghost hv = head@;
        let RequestHead { size, method, path, version, headers: raw } = head;
        let method = match method {
            Some(m) => m,
            None => return Err(RequestError::MissingMethod),
        };
        let target = match path {
            Some(p) => p,
            None => return Err(RequestError::MissingTarget),
        };
        let version = match version {
            Some(v) => v,
            None => return Err(RequestError::MissingVersion),
        };
        let mut headers: Vec<(String, String)> = Vec::new();
        let mut k: usize = 0;
        while k < raw.len()
            invariant
                k <= raw@.len(),
                raw.deep_view() == hv.headers,
                headers.deep_view() == decoded_headers(hv.headers).subrange(0, k as int),
            decreases raw@.len() - k,
        {
            assert(hv.headers[k as int] == (raw@[k as int].0@, raw@[k as int].1@));
            let text = lossy_text(raw[k].1.as_slice());
            let tc = chars_of(text.as_str());
            let value = trim_chars(tc.as_slice());
            let ghost before = headers.deep_view();
            let name = raw[k].0.clone();
            let value = string_from_chars(value.as_slice());
            assert(value@ == trim(utf8_lossy(hv.headers[k as int].1)));
            assert(decoded_headers(hv.headers)[k as int] == (name@, value@));
            headers.push((name, value));
            assert(headers.deep_view() =~= before.push((name@, value@)));
            assert(headers.deep_view() =~= decoded_headers(hv.headers).subrange(0, k + 1));
            k += 1;
        }
        assert(decoded_headers(hv.headers).subrange(0, k as int) =~= decoded_headers(hv.headers));
        let n = data.len();
        let body = vstd::slice::slice_to_vec(vstd::slice::slice_subrange(data, size, n));
        let mc = chars_of(method.as_str());
        let connect = connect_chars();
        if eq_ignore_case(mc.as_slice(), connect.as_slice()) {
            match Self::parse_connect_target(target.as_str()) {
                Ok((host, port)) => Ok(Request { method, target, version, headers, body, host, port }),
                Err(e) => Err(e),
            }
        } else {
            match Self::normalize_target(target.as_str(), headers.as_slice()) {
                Ok((t, host, port)) => Ok(Request { method, target: t, version, headers, body, host, port }),
                Err(e) => Err(e),
            }
        }
    }

    /// Reads a request from its raw bytes.
    pub fn from_bytes(data: &[u8]) -> (r: Result<Self, RequestError>)
        ensures
            request_result_view(r) == request_from_bytes(data@),
    {
        match parse_request_head(data) {
            RequestParse::Invalid(e) => Err(RequestError::Malformed(e)),
            RequestParse::Partial => Err(RequestError::Incomplete),
            RequestParse::Complete(head) => Self::from_head(head, data),
        }
    }
}

// ---------------------------------------------------------------------------
// Deciding when a message has been read in full
// ---------------------------------------------------------------------------

/// What to do after the bytes read so far.
pub enum ReadProgress {
    /// Read more: the head is not complete, or the body is shorter than
    /// the declared length.
    NeedMore,
    /// The message is complete.
    Done,
    /// The bytes are not an HTTP message; the text is the parser's reason.
    Failed(String),
}

/// Mathematical form of a [`ReadProgress`].
pub enum ReadProgressView {
    NeedMore,
    Done,
    Failed(Seq<char>),
}

impl View for ReadProgress {
    type V = ReadProgressView;

    open spec fn view(&self) -> ReadProgressView {
        match self {
            ReadProgress::NeedMore => ReadProgressView::NeedMore,
            ReadProgress::Done => ReadProgressView::Done,
            ReadProgress::Failed(e) => ReadProgressView::Failed(e@),
        }
    }
}

/// Whether a header name is `Content-Length`: up to ASCII case when
/// `ignore_case`, exactly otherwise.
pub open spec fn is_content_length(name: Seq<char>, ignore_case: bool) -> bool {
    if ignore_case {
        eq_ignore_ascii_case(name, content_length_name())
    } else {
        name == content_length_name()
    }
}

/// The body length that the last `Content-Length` header declares, when
/// its value reads as a `usize`.
pub open spec fn declared_length(hs: Seq<(Seq<char>, Seq<u8>)>, ignore_case: bool) -> Option<nat>
    decreases hs.len(),
{
    if hs.len() == 0 {
        None
    } else if is_content_length(hs.last().0, ignore_case) {
        parse_unsigned(utf8_lossy(hs.last().1), usize::MAX as nat)
    } else {
        declared_length(hs.drop_last(), ignore_case)
    }
}

/// Whether a message whose head takes `size` of `total` bytes is complete:
/// it is when no length is declared or the body has reached it.
pub open spec fn progress_after_head(
    size: nat,
    hs: Seq<(Seq<char>, Seq<u8>)>,
    total: nat,
    ignore_case: bool,
) -> ReadProgressView {
    match declared_length(hs, ignore_case) {
        None => ReadProgressView::Done,
        Some(len) => if total - size >= len {
            ReadProgressView::Done
        } else {
            ReadProgressView::NeedMore
        },
    }
}

/// Whether the bytes read so far hold a whole request.
pub open spec fn request_progress_spec(data: Seq<u8>) -> ReadProgressView {
    match httparse_request(data) {
        RequestParseView::Invalid(e) => ReadProgressView::Failed(e),
        RequestParseView::Partial => ReadProgressView::NeedMore,
        RequestParseView::Complete(h) => progress_after_head(h.size, h.headers, data.len(), true),
    }
}

/// Whether the bytes read so far hold a whole response.
pub open spec fn response_progress_spec(data: Seq<u8>) -> ReadProgressView {
    match httparse_response(data) {
        ResponseParseView::Invalid(e) => ReadProgressView::Failed(e),
        ResponseParseView::Partial => ReadProgressView::NeedMore,
        ResponseParseView::Complete(h) => progress_after_head(h.size, h.headers, data.len(), false),
    }
}

/// Whether a message with a complete head of `size` bytes, these headers
/// and `total` bytes read is complete.
pub fn progress_from_head(
    size: usize,
    headers: &[(String, Vec<u8>)],
    total: usize,
    ignore_case: bool,
) -> (r: ReadProgress)
    requires
        size <= total,
    ensures
        r@ == progress_after_head(size as nat, headers.deep_view(), total as nat, ignore_case),
{
    let ghost hs = headers.deep_view();
    let cl = content_length_chars();
    let mut length: Option<u64> = None;
    let mut k: usize = 0;
    assert(hs.subrange(0, 0) =~= Seq::<(Seq<char>, Seq<u8>)>::empty());
    while k < headers.len()
        invariant
            k <= headers@.len(),
            hs == headers.deep_view(),
            cl@ == content_length_name(),
            match length {
                Some(n) => declared_length(hs.subrange(0, k as int), ignore_case) == Some(n as nat),
                None => declared_length(hs.subrange(0, k as int), ignore_case) is None,
            },
        decreases headers@.len() - k,
    {
        let ghost prefix = hs.subrange(0, k + 1);
        assert(prefix.drop_last() =~= hs.subrange(0, k as int));
        assert(prefix.last() == (headers@[k as int].0@, headers@[k as int].1@));
        let name = chars_of(headers[k].0.as_str());
        let matches = if ignore_case {
            eq_ignore_case(name.as_slice(), cl.as_slice())
        } else {
            chars_equal(name.as_slice(), cl.as_slice())
        };
        if matches {
            let text = lossy_text(headers[k].1.as_slice());
            let tc = chars_of(text.as_str());
            length = parse_unsigned_chars(tc.as_slice(), usize::MAX as u64);
        }
        k += 1;
    }
    assert(hs.subrange(0, k as int) =~= hs);
    match length {
        None => ReadProgress::Done,
        Some(n) => if (total - size) as u64 >= n {
            ReadProgress::Done
        } else {
            ReadProgress::NeedMore
        },
    }
}

/// Whether the bytes read so far hold a whole request.
pub fn request_progress(data: &[u8]) -> (r: ReadProgress)
    ensures
        r@ == request_progress_spec(data@),
{
    match parse_request_head(data) {
        RequestParse::Invalid(e) => ReadProgress::Failed(e),
        RequestParse::Partial => ReadProgress::NeedMore,
        RequestParse::Complete(head) => progress_from_head(
            head.size,
            head.headers.as_slice(),
            data.len(),
            true,
        ),
    }
}

/// Whether the bytes read so far hold a whole response.
pub fn response_progress(data: &[u8]) -> (r: ReadProgress)
    ensures
        r@ == response_progress_spec(data@),
{
    match parse_response_head(data) {
        ResponseParse::Invalid(e) => ReadProgress::Failed(e),
        ResponseParse::Partial => ReadProgress::NeedMore,
        ResponseParse::Complete(head) => progress_from_head(
            head.size,
            head.headers.as_slice(),
            data.len(),
            false,
        ),
    }
}

/// The raw bytes of a server's response.
pub struct Response {
    pub raw: Vec<u8>,
}

impl Response {
    /// The response as text, with invalid UTF-8 replaced.
    pub fn to_str(&self) -> (s: String)
        ensures
            s@ == utf8_lossy(self.raw@),
            valid_utf8(self.raw@) ==> s@ == decode_utf8(self.raw@),
            !valid_utf8(self.raw@) ==> s@.contains('\u{FFFD}'),
    {
        lossy_text(self.raw.as_slice())
    }
}

} // verus!
