//! An HTTP response: status line, header list and body.

use vstd::prelude::*;
use crate::decimal::{
    decimal, is_numeral, numeral_value, push_decimal, read_decimal, to_decimal,
};
use crate::header::{
    content_length_name, header_block, header_line, lemma_header_block_empty,
    lemma_header_block_push_twice, push_header, push_header_block,
};
use crate::parse::{fields_of, lines_of, parse_fields, ParseError};
use crate::request::default_version;
use crate::text::{
    byte_len, crlf, crlf_str, find, find_char, find_crlf, lemma_split_window, space_str, Text,
};

verus! {

/// A response.
#[derive(Debug, Clone, PartialEq, Eq)]
pub struct Response {
    status: u32,
    reason_phrase: String,
    version: String,
    headers: Vec<(String, String)>,
    body: String,
}

/// What a response holds, the strings as character sequences.
pub ghost struct ResponseView {
    pub status: u32,
    pub reason_phrase: Seq<char>,
    pub version: Seq<char>,
    pub headers: Seq<(Seq<char>, Seq<char>)>,
    pub body: Seq<char>,
}

/// The status line: version, status code in decimal and reason phrase with a
/// space between them, without the line terminator.
pub open spec fn status_line(r: ResponseView) -> Seq<char> {
    r.version + seq![' '] + decimal(r.status as nat) + seq![' '] + r.reason_phrase
}

/// The wire text of a response: the status line, the header lines, one blank
/// line, the body. Every line ends in a carriage return and a line feed, and
/// nothing follows the body.
pub open spec fn response_text(r: ResponseView) -> Seq<char> {
    status_line(r) + crlf() + header_block(r.headers) + crlf() + r.body
}

/// The version, the status code and the reason phrase that a status line
/// holds. The version ends at the first space, the status code at the next
/// space or at the end of the line, and the reason phrase is all that follows,
/// spaces included. A line without a space is no status line, nor is one
/// whose status code is not a decimal numeral of a 32-bit number.
pub open spec fn status_line_of(line: Seq<char>) -> Option<(Seq<char>, u32, Seq<char>)> {
    match find(line, seq![' ']) {
        None => None,
        Some(i) => {
            let rest = line.subrange(i + 1, line.len() as int);
            let (code, reason) = match find(rest, seq![' ']) {
                None => (rest, Seq::empty()),
                Some(j) => (rest.subrange(0, j), rest.subrange(j + 1, rest.len() as int)),
            };
            if is_numeral(code) && numeral_value(code) <= u32::MAX {
                Some((line.subrange(0, i), numeral_value(code) as u32, reason))
            } else {
                None
            }
        },
    }
}

/// The response that a wire text stands for, or the first thing that is
/// wrong with the text.
pub open spec fn parse_response(text: Seq<char>) -> Result<ResponseView, ParseError> {
    let lines = lines_of(text);
    match status_line_of(lines[0]) {
        None => Err(ParseError::MalformedStatusLine),
        Some((version, status, reason_phrase)) => match fields_of(lines) {
            Err(e) => Err(e),
            Ok((headers, body)) => Ok(
                ResponseView { status, reason_phrase, version, headers, body },
            ),
        },
    }
}

/// Reads the status line that ends at `end`.
fn parse_status_line(text: &Text, end: usize) -> (r: Option<(String, u32, String)>)
    requires
        end <= text@.len(),
    ensures
        match r {
            Some((version, status, reason)) => status_line_of(text@.subrange(0, end as int))
                == Some((version@, status, reason@)),
            None => status_line_of(text@.subrange(0, end as int)) is None,
        },
{
    let ghost line = text@.subrange(0, end as int);
    let first = match find_char(text.chars(), 0, end, ' ') {
        Some(i) => i,
        None => {
            return None;
        },
    };
    let ghost rest = line.subrange(first + 1, line.len() as int);
    proof {
        assert(rest =~= text@.subrange(first + 1, end as int));
    }
    let found = find_char(text.chars(), first + 1, end, ' ');
    let code_end = match found {
        Some(j) => j,
        None => end,
    };
    let reason_start = match found {
        Some(j) => j + 1,
        None => end,
    };
    proof {
        assert(line.subrange(0, first as int) =~= text@.subrange(0, first as int));
        match found {
            Some(j) => {
                assert(rest.subrange(0, j - first - 1) =~= text@.subrange(
                    first + 1,
                    code_end as int,
                ));
                assert(rest.subrange(j - first - 1 + 1, rest.len() as int) =~= text@.subrange(
                    reason_start as int,
                    end as int,
                ));
            },
            None => {
                assert(text@.subrange(reason_start as int, end as int) =~= Seq::empty());
            },
        }
    }
    let status = match read_decimal(text.chars(), first + 1, code_end) {
        Some(n) => n,
        None => {
            return None;
        },
    };
    let version = String::from_str(text.slice(0, first));
    let reason = String::from_str(text.slice(reason_start, end));
    Some((version, status, reason))
}

impl View for Response {
    type V = ResponseView;

    closed spec fn view(&self) -> ResponseView {
        ResponseView {
            status: self.status,
            reason_phrase: self.reason_phrase@,
            version: self.version@,
            headers: self.headers.deep_view(),
            body: self.body@,
        }
    }
}

impl Response {
    /// A response with the given status code. It carries the default
    /// version, an empty reason phrase, no header and an empty body.
    pub fn new(status: u32) -> (r: Response)
        ensures
            r@ == (ResponseView {
                status,
                reason_phrase: Seq::empty(),
                version: default_version(),
                headers: Seq::empty(),
                body: Seq::empty(),
            }),
    {
        let r = Response {
            status,
            version: String::from_str("HTTP/1.1"),
            reason_phrase: String::new(),
            headers: Vec::new(),
            body: String::new(),
        };
        assert(r@.headers =~= Seq::empty());
        r
    }

    /// Reads a response from its wire text.
    ///
    /// The text is cut into lines at every line terminator. The first line
    /// gives version, status code and reason phrase. Each following line, up
    /// to the first empty one, gives a header. The lines after the empty one,
    /// put together with nothing between them, are the body.
    pub fn parse(raw_response: String) -> (r: Result<Response, ParseError>)
        ensures
            match r {
                Ok(response) => parse_response(raw_response@) == Ok::<ResponseView, ParseError>(
                    response@,
                ),
                Err(e) => parse_response(raw_response@) == Err::<ResponseView, ParseError>(e),
            },
    {
        let text = Text::new(raw_response.as_str());
        let n = text.len();
        proof {
            lemma_split_window(text@, 0, n as int, crlf());
            assert(text@.subrange(0, n as int) =~= text@);
        }
        let first_end = match find_crlf(text.chars(), 0, n) {
            Some(i) => i,
            None => n,
        };
        let (version, status, reason_phrase) = match parse_status_line(&text, first_end) {
            Some(parts) => parts,
            None => {
                return Err(ParseError::MalformedStatusLine);
            },
        };
        match parse_fields(&text) {
            Err(e) => Err(e),
            Ok((headers, body)) => Ok(Response { status, reason_phrase, version, headers, body }),
        }
    }

    /// Replaces the status code.
    pub fn set_status(&mut self, status: u32)
        ensures
            final(self)@ == (ResponseView { status, ..old(self)@ }),
    {
        self.status = status;
    }

    /// Replaces the reason phrase.
    pub fn set_reason_phrase(&mut self, reason_phrase: &str)
        ensures
            final(self)@ == (ResponseView { reason_phrase: reason_phrase@, ..old(self)@ }),
    {
        self.reason_phrase = String::from_str(reason_phrase);
    }

    /// Appends a header. A header of the same name that is already there
    /// stays where it is.
    pub fn set_header_attr(&mut self, attrib: &str, value: &str)
        ensures
            final(self)@ == (ResponseView {
                headers: old(self)@.headers.push((attrib@, value@)),
                ..old(self)@
            }),
    {
        push_header(&mut self.headers, attrib, value);
    }

    /// Replaces the body and appends a `Content-Length` header with the
    /// number of bytes of the new body. Earlier `Content-Length` headers stay.
    pub fn set_body(&mut self, body: &str)
        ensures
            final(self)@ == (ResponseView {
                body: body@,
                headers: old(self)@.headers.push(
                    (content_length_name(), decimal(byte_len(body@))),
                ),
                ..old(self)@
            }),
    {
        self.body = String::from_str(body);
        let length = to_decimal(body.as_bytes().len() as u64);
        self.set_header_attr("Content-Length", length.as_str());
    }

    /// The wire text of the response.
    pub fn build(&self) -> (text: String)
        ensures
            text@ == response_text(self@),
    {
        let mut text = String::new();
        text.append(self.version.as_str());
        text.append(space_str());
        push_decimal(&mut text, self.status as u64);
        text.append(space_str());
        text.append(self.reason_phrase.as_str());
        text.append(crlf_str());
        push_header_block(&mut text, &self.headers);
        text.append(crlf_str());
        text.append(self.body.as_str());
        assert(text@ =~= response_text(self@));
        text
    }

    /// The status code.
    pub fn status(&self) -> (status: u32)
        ensures
            status == self@.status,
    {
        self.status
    }

    /// The reason phrase.
    pub fn reason_phrase(&self) -> (reason_phrase: &str)
        ensures
            reason_phrase@ == self@.reason_phrase,
    {
        self.reason_phrase.as_str()
    }

    /// The protocol version.
    pub fn version(&self) -> (version: &str)
        ensures
            version@ == self@.version,
    {
        self.version.as_str()
    }

    /// The header list, in the order in which the headers were added.
    pub fn headers(&self) -> (headers: &Vec<(String, String)>)
        ensures
            headers.deep_view() == self@.headers,
    {
        &self.headers
    }

    /// The body.
    pub fn body(&self) -> (body: &str)
        ensures
            body@ == self@.body,
    {
        self.body.as_str()
    }
}

/// The text of a response without headers is its status line, the blank
/// line, and the body: there is one blank line before the body, and no header
/// line.
pub proof fn lemma_response_text_without_headers(r: ResponseView)
    requires
        r.headers.len() == 0,
    ensures
        response_text(r) == status_line(r) + crlf() + crlf() + r.body,
{
    lemma_header_block_empty();
    assert(r.headers =~= Seq::empty());
    assert(response_text(r) =~= status_line(r) + crlf() + crlf() + r.body);
}

/// Two headers that are appended one after the other both stand in the text
/// of the response, after the headers that were there and in the order in
/// which they were appended, also where both carry the same name.
pub proof fn lemma_response_text_push_twice(
    r: ResponseView,
    first: (Seq<char>, Seq<char>),
    second: (Seq<char>, Seq<char>),
)
    ensures
        response_text(ResponseView { headers: r.headers.push(first).push(second), ..r })
            == status_line(r) + crlf() + header_block(r.headers) + header_line(first)
            + header_line(second) + crlf() + r.body,
{
    lemma_header_block_push_twice(r.headers, first, second);
    let after = ResponseView { headers: r.headers.push(first).push(second), ..r };
    assert(response_text(after) =~= status_line(r) + crlf() + header_block(r.headers)
        + header_line(first) + header_line(second) + crlf() + r.body);
}

} // verus!
