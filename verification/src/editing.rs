//! Why opening a request in the editor and saving it unchanged gives the
//! same request back: the text that `Request::to_str` writes is read back
//! by `Request::from_edited` into the request it came from, as long as the
//! request's parts can be told apart in that text.
use vstd::prelude::*;
use vstd::utf8::{
    encode_scalar, encode_utf8_first_scalar, length_of_first_scalar, pop_first_scalar, decode_utf8, decode_utf8_encode_utf8, encode_utf8, encode_utf8_decode_utf8,
    encode_utf8_valid_utf8, is_char_boundary_iff_not_is_continuation_byte, decode_utf8_split,
    is_char_boundary_start_end_of_seq, valid_utf8, valid_utf8_concat,
};

use crate::http::{
    blank_line, content_length_name, crlf, edited_request, edited_version, find_header,
    find_header_from, head_text, header_block, header_line, header_lines, header_of_line, lemma_find_header_bounds,
    request_line_parts, split_head_body, version_prefix, with_content_length, RequestView,
};
use crate::text::{
    eq_ignore_ascii_case,
    dec, lacks, lemma_dec_digits, lemma_dec_lacks, lemma_find_past, lemma_find_after,
    lemma_find_start, lemma_parse_dec, occurs_at, split_all, split_once, starts_with,
    trim, trim_start, trim_end, find, is_ws, lemma_find_from_bounds, lemma_split_all_nonempty,
};

verus! {

/// A header on its own line, without the line end.
pub open spec fn header_text(h: (Seq<char>, Seq<char>)) -> Seq<char> {
    h.0 + seq![':', ' '] + h.1
}

/// The request line of `r`, without the line end.
pub open spec fn request_line_text(r: RequestView) -> Seq<char> {
    r.method + seq![' '] + r.target + seq![' '] + version_prefix() + dec(r.version as nat)
}

/// Lines joined with `\r\n` between them.
pub open spec fn join_lines(lines: Seq<Seq<char>>) -> Seq<char>
    decreases lines.len(),
{
    if lines.len() == 0 {
        Seq::empty()
    } else if lines.len() == 1 {
        lines[0]
    } else {
        join_lines(lines.drop_last()) + crlf() + lines.last()
    }
}

/// The lines of a request's head: the request line, then one per header.
pub open spec fn head_lines(r: RequestView) -> Seq<Seq<char>> {
    seq![request_line_text(r)] + r.headers.map_values(|h: (Seq<char>, Seq<char>)| header_text(h))
}

/// `\r\n` occurs nowhere in `s`.
pub open spec fn lacks_crlf(s: Seq<char>) -> bool {
    forall|i: int| !#[trigger] occurs_at(s, crlf(), i)
}

/// A header that survives the round trip: its name has no `:`, neither
/// part holds a line end `\r\n`, and both are already trimmed.
pub open spec fn header_ready(h: (Seq<char>, Seq<char>)) -> bool {
    &&& lacks(h.0, ':')
    &&& lacks_crlf(h.0)
    &&& lacks_crlf(h.1)
    &&& trim(h.0) == h.0
    &&& trim(h.1) == h.1
}

/// A request that survives the round trip: method and target hold no
/// space and no line end `\r\n`, every header survives, the body is valid
/// UTF-8, and `Content-Length` already holds the body's length (or the body
/// is empty and there is no such header).
pub open spec fn edit_ready(r: RequestView) -> bool {
    &&& lacks(r.method, ' ')
    &&& lacks_crlf(r.method)
    &&& lacks(r.target, ' ')
    &&& lacks_crlf(r.target)
    &&& forall|i: int| 0 <= i < r.headers.len() ==> header_ready(#[trigger] r.headers[i])
    &&& valid_utf8(r.body)
    &&& match find_header(r.headers, content_length_name()) {
        Some(i) => r.headers[i].1 == dec(r.body.len()),
        None => r.body.len() == 0,
    }
}

/// Lines that `\r\n` splits apart again: none holds `\r\n`, and every
/// line after the first is non-empty.
pub open spec fn lines_ready(lines: Seq<Seq<char>>) -> bool {
    forall|i: int| 0 <= i < lines.len() ==> lacks_crlf(#[trigger] lines[i]) && (i >= 1 ==> lines[i].len() > 0)
}

/// The first `p`, which starts with `\r\n`, in `a + b`, when `a` holds no
/// `\r\n` and `b` does not start with `\n`.
proof fn lemma_find_past_crlf(a: Seq<char>, b: Seq<char>, p: Seq<char>)
    requires
        lacks_crlf(a),
        p.len() >= 2,
        p[0] == '\r',
        p[1] == '\n',
        b.len() > 0 ==> b[0] != '\n',
    ensures
        find(a + b, p) == match find(b, p) {
            Some(k) => Some(k + a.len()),
            None => None,
        },
{
    let s = a + b;
    assert forall|j: int| 0 <= j < a.len() implies !occurs_at(s, p, j) by {
        if occurs_at(s, p, j) {
            let w = s.subrange(j, j + p.len());
            assert(s[j] == w[0] && s[j + 1] == w[1]);
            if j + 1 < a.len() {
                assert(a.subrange(j, j + 2) =~= crlf());
                assert(occurs_at(a, crlf(), j));
            } else {
                assert(s[j + 1] == b[0]);
            }
        }
    }
    lemma_find_after(a, b, p);
}

/// A text without `\r\n` has no first `\r\n`.
proof fn lemma_find_none_crlf(a: Seq<char>)
    requires
        lacks_crlf(a),
    ensures
        find(a, crlf()) is None,
{
    lemma_find_past_crlf(a, Seq::empty(), crlf());
    assert(a + Seq::<char>::empty() =~= a);
}

/// Two texts without `\r\n` make one, unless the first ends with `\r` and
/// the second starts with `\n`.
proof fn lemma_lacks_crlf_concat(a: Seq<char>, b: Seq<char>)
    requires
        lacks_crlf(a),
        lacks_crlf(b),
        !(a.len() > 0 && b.len() > 0 && a.last() == '\r' && b[0] == '\n'),
    ensures
        lacks_crlf(a + b),
{
    let s = a + b;
    assert forall|i: int| !#[trigger] occurs_at(s, crlf(), i) by {
        if occurs_at(s, crlf(), i) {
            let w = s.subrange(i, i + 2);
            assert(s[i] == w[0] && s[i + 1] == w[1]);
            if i + 1 < a.len() {
                assert(a.subrange(i, i + 2) =~= crlf());
                assert(occurs_at(a, crlf(), i));
            } else if i + 1 == a.len() {
                assert(s[i + 1] == b[0]);
            } else {
                assert(b.subrange(i - a.len(), i - a.len() + 2) =~= crlf());
                assert(occurs_at(b, crlf(), i - a.len()));
            }
        }
    }
}

/// A text without `\r` has no `\r\n`.
proof fn lemma_lacks_cr_crlf(s: Seq<char>)
    requires
        lacks(s, '\r'),
    ensures
        lacks_crlf(s),
{
    assert forall|i: int| !#[trigger] occurs_at(s, crlf(), i) by {
        if occurs_at(s, crlf(), i) {
            assert(s.subrange(i, i + 2)[0] == s[i]);
        }
    }
}

/// A piece of a text without `\r\n` has none either.
proof fn lemma_lacks_crlf_sub(s: Seq<char>, i: int, j: int)
    requires
        lacks_crlf(s),
        0 <= i <= j <= s.len(),
    ensures
        lacks_crlf(s.subrange(i, j)),
{
    let t = s.subrange(i, j);
    assert forall|k: int| !#[trigger] occurs_at(t, crlf(), k) by {
        if occurs_at(t, crlf(), k) {
            assert(s.subrange(i + k, i + k + 2) =~= t.subrange(k, k + 2));
            assert(occurs_at(s, crlf(), i + k));
        }
    }
}

/// Joined lines followed by a blank line start with the first line, and a
/// carriage return follows it.
proof fn lemma_join_then_cr(lines: Seq<Seq<char>>, rest: Seq<char>)
    requires
        lines.len() >= 1,
    ensures
        ({
            let x = join_lines(lines) + blank_line() + rest;
            &&& lines[0].len() < x.len()
            &&& x.subrange(0, lines[0].len() as int) == lines[0]
            &&& x[lines[0].len() as int] == '\r'
        }),
{
    let x = join_lines(lines) + blank_line() + rest;
    if lines.len() == 1 {
        assert(x =~= lines[0] + (blank_line() + rest));
    } else {
        lemma_join_front(lines);
        assert(x =~= lines[0] + (crlf() + join_lines(lines.drop_first()) + blank_line() + rest));
    }
    assert(x.subrange(0, lines[0].len() as int) =~= lines[0]);
}

/// The request line and headers written out are the joined head lines
/// followed by a blank line.
proof fn lemma_join_block(l0: Seq<char>, hs: Seq<(Seq<char>, Seq<char>)>)
    ensures
        l0 + crlf() + header_block(hs) == join_lines(
            seq![l0] + hs.map_values(|h: (Seq<char>, Seq<char>)| header_text(h)),
        ) + crlf(),
    decreases hs.len(),
{
    let ls = seq![l0] + hs.map_values(|h: (Seq<char>, Seq<char>)| header_text(h));
    if hs.len() == 0 {
        assert(ls =~= seq![l0]);
        assert(header_block(hs) =~= Seq::<char>::empty());
        assert(l0 + crlf() + header_block(hs) =~= l0 + crlf());
    } else {
        let hs2 = hs.drop_last();
        lemma_join_block(l0, hs2);
        let ls2 = seq![l0] + hs2.map_values(|h: (Seq<char>, Seq<char>)| header_text(h));
        assert(ls.drop_last() =~= ls2);
        assert(ls.last() == header_text(hs.last()));
        assert(header_line(hs.last()) =~= header_text(hs.last()) + crlf());
        assert(l0 + crlf() + header_block(hs) =~= (l0 + crlf() + header_block(hs2)) + header_text(
            hs.last(),
        ) + crlf());
        assert(join_lines(ls) == join_lines(ls2) + crlf() + header_text(hs.last()));
        assert(join_lines(ls) + crlf() =~= (join_lines(ls2) + crlf()) + header_text(hs.last())
            + crlf());
    }
}

/// The head text of a request is its joined head lines and a blank line.
pub proof fn lemma_head_text_lines(r: RequestView)
    ensures
        head_text(r) == join_lines(head_lines(r)) + blank_line(),
{
    lemma_join_block(request_line_text(r), r.headers);
    assert(head_text(r) =~= (request_line_text(r) + crlf() + header_block(r.headers)) + crlf());
    assert(join_lines(head_lines(r)) + blank_line() =~= (join_lines(head_lines(r)) + crlf())
        + crlf());
}

/// Joining takes the first line, `\r\n`, then the rest joined.
proof fn lemma_join_front(lines: Seq<Seq<char>>)
    requires
        lines.len() >= 2,
    ensures
        join_lines(lines) == lines[0] + crlf() + join_lines(lines.drop_first()),
    decreases lines.len(),
{
    if lines.len() == 2 {
        assert(lines.drop_last() =~= seq![lines[0]]);
        assert(lines.drop_first() =~= seq![lines[1]]);
        assert(join_lines(lines.drop_last()) == lines[0]);
        assert(join_lines(lines.drop_first()) == lines[1]);
        assert(lines.last() == lines[1]);
    } else {
        lemma_join_front(lines.drop_last());
        assert(lines.drop_first().drop_last() =~= lines.drop_last().drop_first());
        assert(lines.drop_first().last() == lines.last());
        assert(join_lines(lines) =~= lines[0] + crlf() + join_lines(lines.drop_first()));
    }
}

/// The first blank line after joined lines is where they end.
proof fn lemma_find_blank(lines: Seq<Seq<char>>, rest: Seq<char>)
    requires
        lines.len() >= 1,
        lines_ready(lines),
    ensures
        find(join_lines(lines) + blank_line() + rest, blank_line()) == Some(
            join_lines(lines).len() as int,
        ),
    decreases lines.len(),
{
    let l0 = lines[0];
    assert(lacks_crlf(l0));
    if lines.len() == 1 {
        let tail = blank_line() + rest;
        assert(join_lines(lines) + blank_line() + rest =~= l0 + tail);
        lemma_find_past_crlf(l0, tail, blank_line());
        lemma_find_start(blank_line(), rest);
    } else {
        lemma_join_front(lines);
        let others = lines.drop_first();
        assert(lines_ready(others)) by {
            assert forall|i: int| 0 <= i < others.len() implies lacks_crlf(#[trigger] others[i])
                && (i >= 1 ==> others[i].len() > 0) by {
                assert(others[i] == lines[i + 1]);
            }
        }
        assert(others[0] == lines[1]);
        lemma_find_blank(others, rest);
        lemma_join_then_cr(others, rest);
        let y = join_lines(others) + blank_line() + rest;
        let x = crlf() + y;
        let o = others[0];
        assert forall|j: int| 0 <= j < crlf().len() implies !occurs_at(crlf() + y, blank_line(), j) by {
            if occurs_at(crlf() + y, blank_line(), j) {
                let w = (crlf() + y).subrange(j, j + 4);
                if j == 0 {
                    assert(w[2] == y[0] && w[3] == y[1]);
                    if o.len() >= 2 {
                        assert(y[0] == o[0] && y[1] == o[1]);
                        assert(o.subrange(0, 2) =~= crlf());
                        assert(occurs_at(o, crlf(), 0));
                    } else {
                        assert(y[1] == '\r');
                    }
                } else {
                    assert(w[0] == '\n');
                }
            }
        }
        lemma_find_after(crlf(), y, blank_line());
        assert(join_lines(lines) + blank_line() + rest =~= l0 + x);
        lemma_find_past_crlf(l0, x, blank_line());
    }
}

/// Splitting joined lines at `\r\n` gives the lines back.
proof fn lemma_split_join(lines: Seq<Seq<char>>)
    requires
        lines.len() >= 1,
        forall|i: int| 0 <= i < lines.len() ==> lacks_crlf(#[trigger] lines[i]),
    ensures
        split_all(join_lines(lines), crlf()) == lines,
    decreases lines.len(),
{
    let l0 = lines[0];
    assert(lacks_crlf(l0));
    if lines.len() == 1 {
        lemma_find_none_crlf(l0);
        assert(split_all(l0, crlf()) =~= seq![l0]);
        assert(lines =~= seq![l0]);
    } else {
        lemma_join_front(lines);
        let others = lines.drop_first();
        assert forall|i: int| 0 <= i < others.len() implies lacks_crlf(#[trigger] others[i]) by {
            assert(others[i] == lines[i + 1]);
        }
        lemma_split_join(others);
        let j = join_lines(lines);
        let tail = crlf() + join_lines(others);
        assert(j =~= l0 + tail);
        lemma_find_past_crlf(l0, tail, crlf());
        lemma_find_start(crlf(), join_lines(others));
        assert(j.subrange(0, l0.len() as int) =~= l0);
        assert(j.subrange((l0.len() + 2) as int, j.len() as int) =~= join_lines(others));
        assert(split_all(j, crlf()) =~= seq![l0] + others);
        assert(lines =~= seq![l0] + others);
    }
}

/// The request line splits back into method, target and version text.
proof fn lemma_request_line(r: RequestView)
    requires
        lacks(r.method, ' '),
        lacks(r.target, ' '),
    ensures
        request_line_parts(request_line_text(r)) == (
            r.method,
            r.target,
            Some(version_prefix() + dec(r.version as nat)),
        ),
{
    let v = version_prefix() + dec(r.version as nat);
    let after_method = seq![' '] + r.target + seq![' '] + v;
    let line = request_line_text(r);
    assert(line =~= r.method + after_method);
    lemma_find_past(r.method, after_method, seq![' ']);
    lemma_find_start(seq![' '], r.target + seq![' '] + v);
    assert(after_method =~= seq![' '] + (r.target + seq![' '] + v));
    assert(line.subrange(0, r.method.len() as int) =~= r.method);
    let rest = r.target + seq![' '] + v;
    assert(line.subrange((r.method.len() + 1) as int, line.len() as int) =~= rest);
    assert(split_once(line, seq![' ']) == Some((r.method, rest)));
    assert(rest =~= r.target + (seq![' '] + v));
    lemma_find_past(r.target, seq![' '] + v, seq![' ']);
    lemma_find_start(seq![' '], v);
    assert(rest.subrange(0, r.target.len() as int) =~= r.target);
    assert(rest.subrange((r.target.len() + 1) as int, rest.len() as int) =~= v);
}

/// The version text reads back as the version.
proof fn lemma_version(v: u8)
    ensures
        edited_version(Some(version_prefix() + dec(v as nat))) == v,
{
    let t = version_prefix() + dec(v as nat);
    assert(t.subrange(0, 7) =~= version_prefix());
    assert(starts_with(t, version_prefix()));
    assert(t.subrange(7, t.len() as int) =~= dec(v as nat));
    lemma_parse_dec(v as nat, 255);
}

/// Trimming ignores one leading space.
proof fn lemma_trim_space(v: Seq<char>)
    ensures
        trim(seq![' '] + v) == trim(v),
{
    assert((seq![' '] + v).drop_first() =~= v);
    assert(trim_start(seq![' '] + v) == trim_start(v));
}

/// A written header line reads back as the header.
proof fn lemma_header_line(h: (Seq<char>, Seq<char>))
    requires
        header_ready(h),
    ensures
        header_of_line(header_text(h)) == Some(h),
{
    let after = seq![':', ' '] + h.1;
    let line = header_text(h);
    assert(line =~= h.0 + after);
    lemma_find_past(h.0, after, seq![':']);
    lemma_find_start(seq![':'], seq![' '] + h.1);
    assert(after =~= seq![':'] + (seq![' '] + h.1));
    assert(line.subrange(0, h.0.len() as int) =~= h.0);
    assert(line.subrange((h.0.len() + 1) as int, line.len() as int) =~= seq![' '] + h.1);
    lemma_trim_space(h.1);
}

/// Written header lines read back as the headers.
proof fn lemma_header_lines(hs: Seq<(Seq<char>, Seq<char>)>)
    requires
        forall|i: int| 0 <= i < hs.len() ==> header_ready(#[trigger] hs[i]),
    ensures
        header_lines(hs.map_values(|h: (Seq<char>, Seq<char>)| header_text(h))) == hs,
    decreases hs.len(),
{
    let ls = hs.map_values(|h: (Seq<char>, Seq<char>)| header_text(h));
    if hs.len() == 0 {
        assert(ls =~= Seq::<Seq<char>>::empty());
        assert(hs =~= Seq::<(Seq<char>, Seq<char>)>::empty());
    } else {
        let hs2 = hs.drop_last();
        assert forall|i: int| 0 <= i < hs2.len() implies header_ready(#[trigger] hs2[i]) by {
            assert(hs2[i] == hs[i]);
        }
        lemma_header_lines(hs2);
        assert(ls.drop_last() =~= hs2.map_values(|h: (Seq<char>, Seq<char>)| header_text(h)));
        assert(header_ready(hs[hs.len() - 1]));
        lemma_header_line(hs.last());
        assert(hs =~= hs2.push(hs.last()));
    }
}

/// Setting `Content-Length` to the length it already holds changes nothing.
proof fn lemma_content_length(r: RequestView)
    requires
        edit_ready(r),
    ensures
        with_content_length(
            r.headers,
            dec(encode_utf8(decode_utf8(r.body)).len()),
            decode_utf8(r.body).len() > 0,
        ) == r.headers,
{
    decode_utf8_encode_utf8(r.body);
    lemma_find_header_bounds(r.headers, content_length_name(), 0);
    match find_header(r.headers, content_length_name()) {
        Some(i) => {
            assert(r.headers.update(i, (r.headers[i].0, dec(r.body.len()))) =~= r.headers);
        },
        None => {
            assert(r.body =~= Seq::<u8>::empty());
        },
    }
}

/// Decoding the UTF-8 of a text followed by valid UTF-8 gives the text
/// followed by the decoded rest.
pub proof fn lemma_decode_after_text(head: Seq<char>, body: Seq<u8>)
    requires
        valid_utf8(body),
    ensures
        valid_utf8(encode_utf8(head) + body),
        decode_utf8(encode_utf8(head) + body) == head + decode_utf8(body),
{
    let e = encode_utf8(head);
    let bytes = e + body;
    encode_utf8_valid_utf8(head);
    valid_utf8_concat(e, body);
    encode_utf8_decode_utf8(head);
    if body.len() == 0 {
        assert(bytes =~= e);
        assert(decode_utf8(body) =~= Seq::<char>::empty());
        assert(head + decode_utf8(body) =~= head);
    } else {
        assert(bytes[e.len() as int] == body[0]);
        is_char_boundary_start_end_of_seq(body);
        is_char_boundary_iff_not_is_continuation_byte(body, 0);
        is_char_boundary_iff_not_is_continuation_byte(bytes, e.len() as int);
        decode_utf8_split(bytes, e.len() as int);
        assert(bytes.subrange(0, e.len() as int) =~= e);
        assert(bytes.subrange(e.len() as int, bytes.len() as int) =~= body);
    }
}

/// Bytes that follow the UTF-8 of a text are valid UTF-8 whenever the
/// whole is.
pub proof fn lemma_valid_after_text(head: Seq<char>, body: Seq<u8>)
    ensures
        valid_utf8(encode_utf8(head) + body) ==> valid_utf8(body),
    decreases head.len(),
{
    let e = encode_utf8(head);
    let bytes = e + body;
    if head.len() == 0 {
        assert(bytes =~= body);
    } else if valid_utf8(bytes) {
        encode_utf8_first_scalar(head);
        let first = encode_scalar(head[0] as u32);
        assert(e == first + encode_utf8(head.drop_first()));
        assert(bytes[0] == e[0]);
        assert(length_of_first_scalar(bytes) == length_of_first_scalar(e));
        assert(pop_first_scalar(bytes) =~= encode_utf8(head.drop_first()) + body);
        lemma_valid_after_text(head.drop_first(), body);
    }
}

/// Editing a request's text without changing it gives the request back:
/// the head as `Request::to_str` writes it, followed by the body's text,
/// reads back through `Request::from_edited` (for the request's own
/// server) as the same request, whenever the request's parts can be told
/// apart in that text.
pub proof fn lemma_edit_round_trip(r: RequestView)
    requires
        edit_ready(r),
    ensures
        edited_request(head_text(r) + decode_utf8(r.body), r.host, r.port) == r,
{
    let lines = head_lines(r);
    let body = decode_utf8(r.body);
    let data = head_text(r) + body;
    lemma_head_text_lines(r);
    let j = join_lines(lines);
    assert(lines[0] == request_line_text(r));
    lemma_dec_digits(r.version as nat);
    assert(lacks_crlf(request_line_text(r))) by {
        let sp = seq![' '];
        let d = dec(r.version as nat);
        lemma_lacks_cr_crlf(sp);
        lemma_lacks_cr_crlf(version_prefix());
        lemma_dec_lacks(r.version as nat, '\r');
        lemma_lacks_cr_crlf(d);
        let a1 = r.method + sp;
        lemma_lacks_crlf_concat(r.method, sp);
        let a2 = a1 + r.target;
        lemma_lacks_crlf_concat(a1, r.target);
        let a3 = a2 + sp;
        lemma_lacks_crlf_concat(a2, sp);
        let a4 = a3 + version_prefix();
        lemma_lacks_crlf_concat(a3, version_prefix());
        lemma_lacks_crlf_concat(a4, d);
        assert(request_line_text(r) =~= a4 + d);
    }
    assert(lines_ready(lines)) by {
        assert forall|i: int| 0 <= i < lines.len() implies lacks_crlf(#[trigger] lines[i]) && (i
            >= 1 ==> lines[i].len() > 0) by {
            if i >= 1 {
                let h = r.headers[i - 1];
                assert(header_ready(h));
                assert(lines[i] == header_text(h));
                let sep = seq![':', ' '];
                lemma_lacks_cr_crlf(sep);
                lemma_lacks_crlf_concat(h.0, sep);
                lemma_lacks_crlf_concat(h.0 + sep, h.1);
                assert(header_text(h) =~= h.0 + sep + h.1);
            }
        }
    }
    assert(data =~= j + blank_line() + body);
    lemma_find_blank(lines, body);
    assert(data.subrange(0, j.len() as int) =~= j);
    assert(data.subrange((j.len() + 4) as int, data.len() as int) =~= body);
    assert(split_head_body(data) == (j, body));
    lemma_split_join(lines);
    lemma_request_line(r);
    lemma_version(r.version);
    assert(lines.subrange(1, lines.len() as int) =~= r.headers.map_values(
        |h: (Seq<char>, Seq<char>)| header_text(h),
    ));
    lemma_header_lines(r.headers);
    lemma_content_length(r);
    decode_utf8_encode_utf8(r.body);
}

/// Whether `Content-Length`, found at the same place, names the same header.
proof fn lemma_find_header_same_names(
    hs: Seq<(Seq<char>, Seq<char>)>,
    gs: Seq<(Seq<char>, Seq<char>)>,
    name: Seq<char>,
    i: int,
)
    requires
        hs.len() == gs.len(),
        forall|k: int| 0 <= k < hs.len() ==> #[trigger] hs[k].0 == gs[k].0,
    ensures
        find_header_from(hs, name, i) == find_header_from(gs, name, i),
    decreases hs.len() - i,
{
    if 0 <= i < hs.len() {
        assert(hs[i].0 == gs[i].0);
        lemma_find_header_same_names(hs, gs, name, i + 1);
    }
}

/// No header before `hs.len()` is named `name`, so one added at the end is
/// the first of that name.
proof fn lemma_find_header_pushed(
    hs: Seq<(Seq<char>, Seq<char>)>,
    h: (Seq<char>, Seq<char>),
    name: Seq<char>,
    i: int,
)
    requires
        0 <= i <= hs.len(),
        find_header_from(hs, name, i) is None,
        eq_ignore_ascii_case(h.0, name),
    ensures
        find_header_from(hs.push(h), name, i) == Some(hs.len() as int),
    decreases hs.len() - i,
{
    if i < hs.len() {
        assert(hs.push(h)[i] == hs[i]);
        lemma_find_header_pushed(hs, h, name, i + 1);
    } else {
        assert(hs.push(h)[i] == h);
    }
}

/// An edited request always carries its body's length: its first
/// `Content-Length` header holds the body's length in bytes, and there is
/// such a header whenever the body is not empty.
pub proof fn lemma_edited_content_length(data: Seq<char>, host: Seq<char>, port: u16)
    ensures
        ({
            let r = edited_request(data, host, port);
            &&& find_header(r.headers, content_length_name()) matches Some(i) ==> r.headers[i].1
                == dec(r.body.len())
            &&& r.body.len() > 0 ==> find_header(r.headers, content_length_name()) is Some
        }),
{
    let (head, body) = split_head_body(data);
    let lines = split_all(head, crlf());
    let hs = header_lines(lines.subrange(1, lines.len() as int));
    let len = dec(encode_utf8(body).len());
    let r = edited_request(data, host, port);
    lemma_find_header_bounds(hs, content_length_name(), 0);
    match find_header(hs, content_length_name()) {
        Some(i) => {
            let gs = hs.update(i, (hs[i].0, len));
            assert(r.headers == gs);
            lemma_find_header_same_names(hs, gs, content_length_name(), 0);
        },
        None => {
            if body.len() > 0 {
                let gs = hs.push((content_length_name(), len));
                assert(r.headers == gs);
                assert(eq_ignore_ascii_case(content_length_name(), content_length_name()));
                lemma_find_header_pushed(hs, (content_length_name(), len), content_length_name(), 0);
            } else {
                assert(body =~= Seq::<char>::empty());
                assert(encode_utf8(body) =~= Seq::<u8>::empty());
            }
        },
    }
}


// ---------------------------------------------------------------------------
// Edited requests are ready for the round trip
// ---------------------------------------------------------------------------

/// The text before the first `c` (all of it, when there is none) holds no `c`.
proof fn lemma_before_first_char(s: Seq<char>, c: char)
    ensures
        match find(s, seq![c]) {
            Some(i) => lacks(s.subrange(0, i), c),
            None => lacks(s, c),
        },
{
    lemma_find_from_bounds(s, seq![c], 0);
    match find(s, seq![c]) {
        Some(i) => {
            assert forall|j: int| 0 <= j < i implies s.subrange(0, i)[j] != c by {
                if s[j] == c {
                    assert(s.subrange(j, j + 1) =~= seq![c]);
                    assert(occurs_at(s, seq![c], j));
                }
            }
        },
        None => {
            assert forall|j: int| 0 <= j < s.len() implies s[j] != c by {
                if s[j] == c {
                    assert(s.subrange(j, j + 1) =~= seq![c]);
                    assert(occurs_at(s, seq![c], j));
                }
            }
        },
    }
}

/// The text before the first `\r\n` (all of it, when there is none) holds
/// no `\r\n`.
proof fn lemma_before_first_crlf(s: Seq<char>)
    ensures
        match find(s, crlf()) {
            Some(i) => lacks_crlf(s.subrange(0, i)),
            None => lacks_crlf(s),
        },
{
    lemma_find_from_bounds(s, crlf(), 0);
    match find(s, crlf()) {
        Some(i) => {
            let t = s.subrange(0, i);
            assert forall|k: int| !#[trigger] occurs_at(t, crlf(), k) by {
                if occurs_at(t, crlf(), k) {
                    assert(s.subrange(k, k + 2) =~= t.subrange(k, k + 2));
                    assert(occurs_at(s, crlf(), k));
                }
            }
        },
        None => {
            assert forall|k: int| !#[trigger] occurs_at(s, crlf(), k) by {
                if 0 <= k {
                    assert(occurs_at(s, crlf(), k) == false);
                }
            }
        },
    }
}

/// No piece of a text split at `\r\n` holds `\r\n`.
proof fn lemma_split_pieces(s: Seq<char>)
    ensures
        forall|i: int| 0 <= i < split_all(s, crlf()).len() ==> lacks_crlf(
            #[trigger] split_all(s, crlf())[i],
        ),
    decreases s.len(),
{
    lemma_before_first_crlf(s);
    lemma_find_from_bounds(s, crlf(), 0);
    match find(s, crlf()) {
        Some(i) => {
            let rest = s.subrange(i + 2, s.len() as int);
            lemma_split_pieces(rest);
            let ps = split_all(s, crlf());
            assert(ps == seq![s.subrange(0, i)] + split_all(rest, crlf()));
            assert forall|k: int| 0 <= k < ps.len() implies lacks_crlf(#[trigger] ps[k]) by {
                if k > 0 {
                    assert(ps[k] == split_all(rest, crlf())[k - 1]);
                }
            }
        },
        None => {
            assert(split_all(s, crlf()) == seq![s]);
        },
    }
}

/// Dropping leading whitespace keeps a suffix that starts with no whitespace.
proof fn lemma_trim_start_range(s: Seq<char>) -> (k: int)
    ensures
        0 <= k <= s.len(),
        trim_start(s) == s.subrange(k, s.len() as int),
        k < s.len() ==> !is_ws(s[k]),
    decreases s.len(),
{
    if s.len() > 0 && is_ws(s[0]) {
        let k1 = lemma_trim_start_range(s.drop_first());
        assert(s.drop_first().subrange(k1, s.drop_first().len() as int) =~= s.subrange(
            k1 + 1,
            s.len() as int,
        ));
        assert(k1 < s.drop_first().len() ==> s.drop_first()[k1] == s[k1 + 1]);
        k1 + 1
    } else {
        assert(s.subrange(0, s.len() as int) =~= s);
        0
    }
}

/// Dropping trailing whitespace keeps a prefix that ends with no whitespace.
proof fn lemma_trim_end_range(s: Seq<char>) -> (k: int)
    ensures
        0 <= k <= s.len(),
        trim_end(s) == s.subrange(0, k),
        k > 0 ==> !is_ws(s[k - 1]),
    decreases s.len(),
{
    if s.len() > 0 && is_ws(s.last()) {
        let k1 = lemma_trim_end_range(s.drop_last());
        assert(s.drop_last().subrange(0, k1) =~= s.subrange(0, k1));
        assert(k1 > 0 ==> s.drop_last()[k1 - 1] == s[k1 - 1]);
        k1
    } else {
        assert(s.subrange(0, s.len() as int) =~= s);
        s.len() as int
    }
}

/// A text that neither starts nor ends with whitespace is its own trim.
proof fn lemma_trim_fixed(s: Seq<char>)
    requires
        s.len() > 0 ==> !is_ws(s[0]) && !is_ws(s.last()),
    ensures
        trim(s) == s,
{
}

/// Trimming keeps a piece of the text, and trimming again changes nothing.
proof fn lemma_trim_range(s: Seq<char>) -> (r: (int, int))
    ensures
        0 <= r.0 <= r.1 <= s.len(),
        trim(s) == s.subrange(r.0, r.1),
        trim(trim(s)) == trim(s),
{
    let a = lemma_trim_start_range(s);
    let t = trim_start(s);
    let k = lemma_trim_end_range(t);
    assert(t.subrange(0, k) =~= s.subrange(a, a + k));
    let u = trim(s);
    if u.len() > 0 {
        assert(u[0] == t[0]);
        assert(u.last() == t[k - 1]);
    }
    lemma_trim_fixed(u);
    (a, a + k)
}

/// A piece of a text without `c` has no `c` either.
proof fn lemma_lacks_sub(s: Seq<char>, c: char, i: int, j: int)
    requires
        lacks(s, c),
        0 <= i <= j <= s.len(),
    ensures
        lacks(s.subrange(i, j), c),
{
    assert forall|k: int| 0 <= k < j - i implies s.subrange(i, j)[k] != c by {
        assert(s.subrange(i, j)[k] == s[i + k]);
    }
}

/// Trimming a text without `c` or `\r\n` keeps it so.
proof fn lemma_trim_keeps(s: Seq<char>, c: char)
    ensures
        lacks(s, c) ==> lacks(trim(s), c),
        lacks_crlf(s) ==> lacks_crlf(trim(s)),
        trim(trim(s)) == trim(s),
{
    let r = lemma_trim_range(s);
    if lacks(s, c) {
        lemma_lacks_sub(s, c, r.0, r.1);
    }
    if lacks_crlf(s) {
        lemma_lacks_crlf_sub(s, r.0, r.1);
    }
}

/// A header read from a line without `\r\n` survives the round trip.
proof fn lemma_header_of_line_ready(line: Seq<char>)
    requires
        lacks_crlf(line),
    ensures
        header_of_line(line) matches Some(h) ==> header_ready(h),
{
    lemma_before_first_char(line, ':');
    lemma_find_from_bounds(line, seq![':'], 0);
    if let Some(i) = find(line, seq![':']) {
        let n = line.subrange(0, i);
        let v = line.subrange(i + 1, line.len() as int);
        lemma_lacks_crlf_sub(line, 0, i);
        lemma_lacks_crlf_sub(line, i + 1, line.len() as int);
        lemma_trim_keeps(n, ':');
        lemma_trim_keeps(v, ':');
    }
}

/// Headers read from lines without `\r\n` all survive the round trip.
proof fn lemma_header_lines_ready(lines: Seq<Seq<char>>)
    requires
        forall|i: int| 0 <= i < lines.len() ==> lacks_crlf(#[trigger] lines[i]),
    ensures
        forall|i: int| 0 <= i < header_lines(lines).len() ==> header_ready(#[trigger] header_lines(lines)[i]),
    decreases lines.len(),
{
    if lines.len() > 0 {
        let init = lines.drop_last();
        assert forall|i: int| 0 <= i < init.len() implies lacks_crlf(#[trigger] init[i]) by {
            assert(init[i] == lines[i]);
        }
        lemma_header_lines_ready(init);
        lemma_header_of_line_ready(lines.last());
        let rest = header_lines(init);
        let hs = header_lines(lines);
        assert forall|i: int| 0 <= i < hs.len() implies header_ready(#[trigger] hs[i]) by {
            if i < rest.len() {
                assert(hs[i] == rest[i]);
            }
        }
    }
}

/// The decimal notation of a length is a ready header value.
proof fn lemma_dec_ready(n: nat)
    ensures
        lacks_crlf(dec(n)),
        trim(dec(n)) == dec(n),
{
    lemma_dec_digits(n);
    lemma_dec_lacks(n, '\r');
    lemma_lacks_cr_crlf(dec(n));
    let d = dec(n);
    assert('0' <= d[0] <= '9' && '0' <= d[d.len() - 1] <= '9');
    lemma_trim_fixed(d);
}

/// Setting `Content-Length` keeps every header ready.
proof fn lemma_content_length_ready(hs: Seq<(Seq<char>, Seq<char>)>, n: nat, nonempty: bool)
    requires
        forall|i: int| 0 <= i < hs.len() ==> header_ready(#[trigger] hs[i]),
    ensures
        forall|i: int| 0 <= i < with_content_length(hs, dec(n), nonempty).len() ==> header_ready(
            #[trigger] with_content_length(hs, dec(n), nonempty)[i],
        ),
{
    lemma_dec_ready(n);
    lemma_find_header_bounds(hs, content_length_name(), 0);
    let name = content_length_name();
    lemma_lacks_cr_crlf(name);
    assert(lacks(name, ':'));
    lemma_trim_fixed(name);
    let gs = with_content_length(hs, dec(n), nonempty);
    assert forall|i: int| 0 <= i < gs.len() implies header_ready(#[trigger] gs[i]) by {
        match find_header(hs, name) {
            Some(k) => {
                if i != k {
                    assert(gs[i] == hs[i]);
                } else {
                    assert(header_ready(hs[k]));
                }
            },
            None => {
                if i < hs.len() {
                    assert(gs[i] == hs[i]);
                }
            },
        }
    }
}

/// Every request rebuilt from edited text survives the round trip.
pub proof fn lemma_edited_request_ready(data: Seq<char>, host: Seq<char>, port: u16)
    ensures
        edit_ready(edited_request(data, host, port)),
{
    let (head, body) = split_head_body(data);
    let lines = split_all(head, crlf());
    lemma_split_all_nonempty(head, crlf());
    lemma_split_pieces(head);
    let line = lines[0];
    assert(lacks_crlf(line));
    // method and target
    lemma_before_first_char(line, ' ');
    lemma_find_from_bounds(line, seq![' '], 0);
    match find(line, seq![' ']) {
        None => {},
        Some(i) => {
            let rest = line.subrange(i + 1, line.len() as int);
            lemma_lacks_crlf_sub(line, 0, i);
            lemma_lacks_crlf_sub(line, i + 1, line.len() as int);
            lemma_before_first_char(rest, ' ');
            lemma_find_from_bounds(rest, seq![' '], 0);
            if let Some(k) = find(rest, seq![' ']) {
                lemma_lacks_crlf_sub(rest, 0, k);
            }
        },
    }
    // headers
    let hl = lines.subrange(1, lines.len() as int);
    assert forall|i: int| 0 <= i < hl.len() implies lacks_crlf(#[trigger] hl[i]) by {
        assert(hl[i] == lines[i + 1]);
    }
    lemma_header_lines_ready(hl);
    let body_bytes = encode_utf8(body);
    lemma_content_length_ready(header_lines(hl), body_bytes.len(), body.len() > 0);
    encode_utf8_valid_utf8(body);
    lemma_edited_content_length(data, host, port);
}

/// Rebuilding a request from its own text changes nothing: whatever text
/// the user saved, opening the resulting request in the editor and saving
/// it unchanged gives the same request again.
pub proof fn lemma_edit_idempotent(data: Seq<char>, host: Seq<char>, port: u16)
    ensures
        ({
            let r = edited_request(data, host, port);
            edited_request(head_text(r) + decode_utf8(r.body), host, port) == r
        }),
{
    lemma_edited_request_ready(data, host, port);
    lemma_edit_round_trip(edited_request(data, host, port));
}

} // verus!
