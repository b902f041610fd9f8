//! What reading makes of a text that was built.
//!
//! Reading is not the inverse of building. The host of a request is not read
//! back, and the line terminators inside a body are lost. What comes back
//! otherwise is what was built, as long as no part of the start line and no
//! header can be mistaken for more than it is: a part of the start line holds
//! no space, a header's name holds no colon, names and values have no
//! whitespace at their ends, and none of them holds a line terminator. The
//! reason phrase of a response may hold spaces.

use vstd::prelude::*;
use crate::decimal::{decimal, is_digit, lemma_decimal_is_numeral};
use crate::header::{header_block, header_line, name_value_separator};
use crate::parse::{
    fields_of, first_blank, has_colon, header_of, joined_lines, lemma_first_blank_is, lines_of,
    ParseError,
};
use crate::request::{parse_request, request_line, request_line_of, request_text, RequestView};
use crate::response::{
    parse_response, response_text, status_line, status_line_of, ResponseView,
};
use crate::text::{
    crlf, free_of, is_trimmed, lemma_find_char_after, lemma_free_of_char, lemma_free_of_crlf,
    lemma_split_char, lemma_split_crlf, lemma_trim_after_whitespace, split,
};

verus! {

/// A part of a start line that is read back as it was written: it holds no
/// space and no line terminator.
pub open spec fn is_token(s: Seq<char>) -> bool {
    free_of(s, seq![' ']) && free_of(s, crlf())
}

/// A header that is read back as it was written.
pub open spec fn is_plain_header(h: (Seq<char>, Seq<char>)) -> bool {
    &&& free_of(h.0, seq![':'])
    &&& free_of(h.0, crlf())
    &&& is_trimmed(h.0)
    &&& free_of(h.1, crlf())
    &&& is_trimmed(h.1)
}

/// Every header of the list is read back as it was written.
pub open spec fn all_plain(hs: Seq<(Seq<char>, Seq<char>)>) -> bool {
    forall|i: int| 0 <= i < hs.len() ==> is_plain_header(#[trigger] hs[i])
}

/// The line of a header without its terminator.
pub open spec fn header_content(h: (Seq<char>, Seq<char>)) -> Seq<char> {
    h.0 + name_value_separator() + h.1
}

/// The line of a plain header holds no line terminator, and reads back as
/// the header.
pub proof fn lemma_header_content(h: (Seq<char>, Seq<char>))
    requires
        is_plain_header(h),
    ensures
        header_content(h).len() > 0,
        free_of(header_content(h), crlf()),
        has_colon(header_content(h)),
        header_of(header_content(h)) == h,
{
    let line = header_content(h);
    let n = h.0.len() as int;
    lemma_free_of_crlf(h.0);
    lemma_free_of_crlf(h.1);
    lemma_free_of_crlf(line);
    assert forall|i: int| 0 <= i && i + 1 < line.len() implies !(#[trigger] line[i] == '\r'
        && line[i + 1] == '\n') by {
        if i + 1 < n {
            assert(line[i] == h.0[i] && line[i + 1] == h.0[i + 1]);
        } else if i >= n + 2 {
            assert(line[i] == h.1[i - n - 2] && line[i + 1] == h.1[i - n - 2 + 1]);
        } else {
            assert(line[n] == ':' && line[n + 1] == ' ');
        }
    }
    assert(line =~= h.0 + seq![':'] + (seq![' '] + h.1));
    lemma_find_char_after(h.0, ':', seq![' '] + h.1);
    assert(line.subrange(0, n) =~= h.0);
    assert(line.subrange(n + 1, line.len() as int) =~= seq![' '] + h.1);
    lemma_trim_after_whitespace(' ', h.1);
}

/// The lines of a block of plain headers, whatever follows the block, are
/// the lines of the headers and then the lines of what follows.
pub proof fn lemma_lines_of_block(hs: Seq<(Seq<char>, Seq<char>)>, tail: Seq<char>)
    requires
        all_plain(hs),
    ensures
        lines_of(header_block(hs) + tail) == hs.map_values(
            |h: (Seq<char>, Seq<char>)| header_content(h),
        ) + lines_of(tail),
    decreases hs.len(),
{
    let content = |h: (Seq<char>, Seq<char>)| header_content(h);
    let line = |h: (Seq<char>, Seq<char>)| header_line(h);
    if hs.len() == 0 {
        assert(hs.map_values(line) =~= Seq::empty());
        assert(header_block(hs) + tail =~= tail);
        assert(hs.map_values(content) + lines_of(tail) =~= lines_of(tail));
    } else {
        let rest = hs.drop_first();
        assert(all_plain(rest)) by {
            assert forall|i: int| 0 <= i < rest.len() implies is_plain_header(
                #[trigger] rest[i],
            ) by {
                assert(rest[i] == hs[i + 1]);
            }
        }
        lemma_lines_of_block(rest, tail);
        assert(hs.map_values(line).first() == header_line(hs[0]));
        assert(hs.map_values(line).drop_first() =~= rest.map_values(line));
        assert(header_block(hs) == header_line(hs[0]) + header_block(rest));
        assert(is_plain_header(hs[0]));
        lemma_header_content(hs[0]);
        assert(header_block(hs) + tail =~= header_content(hs[0]) + crlf() + (header_block(rest)
            + tail));
        lemma_split_crlf(header_content(hs[0]), header_block(rest) + tail);
        assert(hs.map_values(content) =~= seq![header_content(hs[0])] + rest.map_values(content));
        assert(hs.map_values(content) + lines_of(tail) =~= seq![header_content(hs[0])] + (
        rest.map_values(content) + lines_of(tail)));
    }
}

/// A message that is built from a start line, plain headers and a body reads
/// back as that start line, those headers, and the body without its line
/// terminators.
pub proof fn lemma_fields_of_message(
    start: Seq<char>,
    hs: Seq<(Seq<char>, Seq<char>)>,
    body: Seq<char>,
)
    requires
        free_of(start, crlf()),
        all_plain(hs),
    ensures
        lines_of(start + crlf() + header_block(hs) + crlf() + body)[0] == start,
        fields_of(lines_of(start + crlf() + header_block(hs) + crlf() + body)) == Ok::<
            (Seq<(Seq<char>, Seq<char>)>, Seq<char>),
            ParseError,
        >((hs, joined_lines(body))),
{
    let text = start + crlf() + header_block(hs) + crlf() + body;
    let content = |h: (Seq<char>, Seq<char>)| header_content(h);
    let contents = hs.map_values(content);
    let blank = Seq::<char>::empty();
    let k = hs.len() as int;
    assert(text =~= start + crlf() + (header_block(hs) + (crlf() + body)));
    lemma_split_crlf(start, header_block(hs) + (crlf() + body));
    lemma_lines_of_block(hs, crlf() + body);
    assert(crlf() + body =~= blank + crlf() + body);
    assert(free_of(blank, crlf()));
    lemma_split_crlf(blank, body);
    let lines = lines_of(text);
    assert(lines == seq![start] + (contents + (seq![blank] + lines_of(body))));
    assert(lines.len() == k + 2 + lines_of(body).len());
    assert(lines[0] == start);
    assert(lines[k + 1] == blank);
    assert forall|j: int| 1 <= j < k + 1 implies (#[trigger] lines[j]).len() > 0 && has_colon(
        lines[j],
    ) && header_of(lines[j]) == hs[j - 1] by {
        assert(lines[j] == header_content(hs[j - 1]));
        assert(is_plain_header(hs[j - 1]));
        lemma_header_content(hs[j - 1]);
    }
    lemma_first_blank_is(lines, 1, k + 1);
    assert(first_blank(lines, 1) == k + 1);
    assert(Seq::new(k as nat, |i: int| header_of(lines[i + 1])) =~= hs);
    assert(lines.subrange(k + 2, lines.len() as int) =~= lines_of(body));
}

/// The line made of three tokens with a space between them holds no line
/// terminator, and its parts are the three tokens.
pub proof fn lemma_request_line(method: Seq<char>, path: Seq<char>, version: Seq<char>)
    requires
        is_token(method),
        is_token(path),
        is_token(version),
    ensures
        free_of(method + seq![' '] + path + seq![' '] + version, crlf()),
        request_line_of(method + seq![' '] + path + seq![' '] + version) == Some(
            (method, path, version),
        ),
{
    let space = seq![' '];
    let line = method + space + path + space + version;
    let m = method.len() as int;
    let p = path.len() as int;
    lemma_free_of_crlf(method);
    lemma_free_of_crlf(path);
    lemma_free_of_crlf(version);
    lemma_free_of_crlf(line);
    assert forall|i: int| 0 <= i && i + 1 < line.len() implies !(#[trigger] line[i] == '\r'
        && line[i + 1] == '\n') by {
        if i + 1 < m {
            assert(line[i] == method[i] && line[i + 1] == method[i + 1]);
        } else if i + 1 == m || i == m {
            assert(line[m] == ' ');
        } else if i + 1 < m + 1 + p {
            assert(line[i] == path[i - m - 1] && line[i + 1] == path[i - m - 1 + 1]);
        } else if i + 1 == m + 1 + p || i == m + 1 + p {
            assert(line[m + 1 + p] == ' ');
        } else {
            assert(line[i] == version[i - m - p - 2] && line[i + 1] == version[i - m - p - 2 + 1]);
        }
    }
    assert(line =~= method + space + (path + space + version));
    lemma_split_char(method, ' ', path + space + version);
    lemma_split_char(path, ' ', version);
    assert(split(version, space) == seq![version]);
    assert(split(line, space) =~= seq![method, path, version]);
}

/// Reading the text of a request gives the request back, but for its host,
/// which is left empty, and for the line terminators in its body, which are
/// lost.
pub proof fn lemma_parse_request_text(q: RequestView)
    requires
        is_token(q.method),
        is_token(q.path),
        is_token(q.version),
        all_plain(q.headers),
    ensures
        parse_request(request_text(q)) == Ok::<RequestView, ParseError>(
            RequestView { host: Seq::empty(), body: joined_lines(q.body), ..q },
        ),
{
    lemma_request_line(q.method, q.path, q.version);
    lemma_fields_of_message(request_line(q), q.headers, q.body);
}

/// A body that holds no line terminator is one line, and reads back as it
/// is.
pub proof fn lemma_joined_lines_of_line(body: Seq<char>)
    requires
        free_of(body, crlf()),
    ensures
        joined_lines(body) == body,
{
    seq![body].lemma_flatten_one_element();
}

/// The text that is built from what was read from the text of a request is
/// that text without the line terminators of the body: its request line, its
/// header lines, the blank line, and the lines of its body put together.
/// Where the body holds no line terminator, it is the text itself.
pub proof fn lemma_rebuild_request_text(q: RequestView)
    requires
        is_token(q.method),
        is_token(q.path),
        is_token(q.version),
        all_plain(q.headers),
    ensures
        parse_request(request_text(q)) is Ok,
        request_text(parse_request(request_text(q))->Ok_0) == request_line(q) + crlf()
            + header_block(q.headers) + crlf() + joined_lines(q.body),
        free_of(q.body, crlf()) ==> request_text(parse_request(request_text(q))->Ok_0)
            == request_text(q),
{
    lemma_parse_request_text(q);
    if free_of(q.body, crlf()) {
        lemma_joined_lines_of_line(q.body);
    }
}

/// The status line made of a version, a status code and a reason phrase holds
/// no line terminator, and its parts are those three.
pub proof fn lemma_status_line(r: ResponseView)
    requires
        is_token(r.version),
        free_of(r.reason_phrase, crlf()),
    ensures
        free_of(status_line(r), crlf()),
        status_line_of(status_line(r)) == Some((r.version, r.status, r.reason_phrase)),
{
    let space = seq![' '];
    let code = decimal(r.status as nat);
    let line = status_line(r);
    let v = r.version.len() as int;
    let c = code.len() as int;
    lemma_decimal_is_numeral(r.status as nat);
    assert forall|i: int| 0 <= i < c implies code[i] != ' ' && code[i] != '\r' by {
        assert(is_digit(code[i]));
    }
    lemma_free_of_char(code, ' ');
    lemma_free_of_crlf(r.version);
    lemma_free_of_crlf(r.reason_phrase);
    lemma_free_of_crlf(line);
    assert forall|i: int| 0 <= i && i + 1 < line.len() implies !(#[trigger] line[i] == '\r'
        && line[i + 1] == '\n') by {
        if i + 1 < v {
            assert(line[i] == r.version[i] && line[i + 1] == r.version[i + 1]);
        } else if i + 1 == v || i == v {
            assert(line[v] == ' ');
        } else if i < v + 1 + c {
            assert(line[i] == code[i - v - 1]);
        } else if i == v + 1 + c {
            assert(line[i] == ' ');
        } else {
            assert(line[i] == r.reason_phrase[i - v - c - 2] && line[i + 1] == r.reason_phrase[i
                - v - c - 2 + 1]);
        }
    }
    let rest = code + space + r.reason_phrase;
    assert(line =~= r.version + space + rest);
    lemma_find_char_after(r.version, ' ', rest);
    assert(line.subrange(v + 1, line.len() as int) =~= rest);
    lemma_find_char_after(code, ' ', r.reason_phrase);
    assert(line.subrange(0, v) =~= r.version);
    assert(rest.subrange(0, c) =~= code);
    assert(rest.subrange(c + 1, rest.len() as int) =~= r.reason_phrase);
}

/// Reading the text of a response gives the response back, but for the line
/// terminators in its body, which are lost.
pub proof fn lemma_parse_response_text(r: ResponseView)
    requires
        is_token(r.version),
        free_of(r.reason_phrase, crlf()),
        all_plain(r.headers),
    ensures
        parse_response(response_text(r)) == Ok::<ResponseView, ParseError>(
            ResponseView { body: joined_lines(r.body), ..r },
        ),
{
    lemma_status_line(r);
    lemma_fields_of_message(status_line(r), r.headers, r.body);
}

} // verus!
