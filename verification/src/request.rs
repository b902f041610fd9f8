//! An HTTP request: request line, header list and body.

use vstd::prelude::*;
use crate::decimal::{decimal, to_decimal};
use crate::header::{
    content_length_name, header_block, header_line, host_name, lemma_header_block_empty,
    lemma_header_block_push, lemma_header_block_push_twice, push_header, push_header_block,
};
use crate::parse::{fields_of, lines_of, parse_fields, ParseError};
use crate::text::{
    byte_len, crlf, crlf_str, find_char, find_crlf, lemma_split_window, occurs_at, space_str,
    split, Text,
};

verus! {

/// The protocol version that a new message carries.
pub open spec fn default_version() -> Seq<char> {
    "HTTP/1.1"@
}

/// A request.
#[derive(Debug, Clone, PartialEq, Eq)]
pub struct Request {
    headers: Vec<(String, String)>,
    body: String,
    method: String,
    version: String,
    path: String,
    host: String,
}

/// What a request holds, as character sequences.
pub ghost struct RequestView {
    pub method: Seq<char>,
    pub path: Seq<char>,
    pub version: Seq<char>,
    pub host: Seq<char>,
    pub headers: Seq<(Seq<char>, Seq<char>)>,
    pub body: Seq<char>,
}

/// The request line: method, path and version with a space between them,
/// without the line terminator.
pub open spec fn request_line(q: RequestView) -> Seq<char> {
    q.method + seq![' '] + q.path + seq![' '] + q.version
}

/// The wire text of a request: the request line, the header lines, one blank
/// line, the body. Every line ends in a carriage return and a line feed, and
/// nothing follows the body.
pub open spec fn request_text(q: RequestView) -> Seq<char> {
    request_line(q) + crlf() + header_block(q.headers) + crlf() + q.body
}

/// What a new request holds: the default version, an empty body, and one
/// header, which names the host.
pub open spec fn new_request(host: Seq<char>, path: Seq<char>, method: Seq<char>) -> RequestView {
    RequestView {
        method,
        path,
        version: default_version(),
        host,
        headers: seq![(host_name(), host)],
        body: Seq::empty(),
    }
}

/// The method, the path and the version that a request line holds: its first
/// three parts, where a part ends at each single space. A line of fewer parts
/// is no request line; parts after the third are passed over.
pub open spec fn request_line_of(line: Seq<char>) -> Option<(Seq<char>, Seq<char>, Seq<char>)> {
    let parts = split(line, seq![' ']);
    if parts.len() < 3 {
        None
    } else {
        Some((parts[0], parts[1], parts[2]))
    }
}

/// The request that a wire text stands for, or the first thing that is wrong
/// with the text. The host is left empty: it is not taken from a `Host`
/// header.
pub open spec fn parse_request(text: Seq<char>) -> Result<RequestView, ParseError> {
    let lines = lines_of(text);
    match request_line_of(lines[0]) {
        None => Err(ParseError::MalformedStatusLine),
        Some((method, path, version)) => match fields_of(lines) {
            Err(e) => Err(e),
            Ok((headers, body)) => Ok(
                RequestView { method, path, version, host: Seq::empty(), headers, body },
            ),
        },
    }
}

/// Reads the request line that ends at `end`.
fn parse_request_line(text: &Text, end: usize) -> (r: Option<(String, String, String)>)
    requires
        end <= text@.len(),
    ensures
        match r {
            Some((method, path, version)) => request_line_of(text@.subrange(0, end as int))
                == Some((method@, path@, version@)),
            None => request_line_of(text@.subrange(0, end as int)) is None,
        },
{
    let ghost space = seq![' '];
    proof {
        lemma_split_window(text@, 0, end as int, space);
    }
    let first = match find_char(text.chars(), 0, end, ' ') {
        Some(i) => i,
        None => {
            return None;
        },
    };
    proof {
        lemma_split_window(text@, first + 1, end as int, space);
    }
    let second = match find_char(text.chars(), first + 1, end, ' ') {
        Some(i) => i,
        None => {
            return None;
        },
    };
    proof {
        lemma_split_window(text@, second + 1, end as int, space);
    }
    let third = match find_char(text.chars(), second + 1, end, ' ') {
        Some(i) => i,
        None => end,
    };
    let method = String::from_str(text.slice(0, first));
    let path = String::from_str(text.slice(first + 1, second));
    let version = String::from_str(text.slice(second + 1, third));
    Some((method, path, version))
}

impl View for Request {
    type V = RequestView;

    closed spec fn view(&self) -> RequestView {
        RequestView {
            method: self.method@,
            path: self.path@,
            version: self.version@,
            host: self.host@,
            headers: self.headers.deep_view(),
            body: self.body@,
        }
    }
}

impl Request {
    /// A request for `path` on `host` with the given method. It carries the
    /// default version, an empty body, and one header, `Host`.
    pub fn new(host: &str, path: &str, method: &str) -> (r: Request)
        ensures
            r@ == new_request(host@, path@, method@),
    {
        let mut headers: Vec<(String, String)> = Vec::new();
        push_header(&mut headers, "Host", host);
        let r = Request {
            headers,
            body: String::new(),
            method: String::from_str(method),
            version: String::from_str("HTTP/1.1"),
            path: String::from_str(path),
            host: String::from_str(host),
        };
        assert(r@.headers =~= seq![(host_name(), host@)]);
        r
    }

    /// A `POST` request for `path` on `host`.
    pub fn post(host: &str, path: &str) -> (r: Request)
        ensures
            r@ == new_request(host@, path@, "POST"@),
    {
        Request::new(host, path, "POST")
    }

    /// A `GET` request for `path` on `host`.
    pub fn get(host: &str, path: &str) -> (r: Request)
        ensures
            r@ == new_request(host@, path@, "GET"@),
    {
        Request::new(host, path, "GET")
    }

    /// Reads a request from its wire text.
    ///
    /// The text is cut into lines at every line terminator. The first line
    /// gives method, path and version. Each following line, up to the first
    /// empty one, gives a header. The lines after the empty one, put together
    /// with nothing between them, are the body.
    pub fn parse(raw_request: String) -> (r: Result<Request, ParseError>)
        ensures
            match r {
                Ok(request) => parse_request(raw_request@) == Ok::<RequestView, ParseError>(
                    request@,
                ),
                Err(e) => parse_request(raw_request@) == Err::<RequestView, ParseError>(e),
            },
    {
        let text = Text::new(raw_request.as_str());
        let n = text.len();
        proof {
            lemma_split_window(text@, 0, n as int, crlf());
            assert(text@.subrange(0, n as int) =~= text@);
        }
        let first_end = match find_crlf(text.chars(), 0, n) {
            Some(i) => i,
            None => n,
        };
        let (method, path, version) = match parse_request_line(&text, first_end) {
            Some(parts) => parts,
            None => {
                return Err(ParseError::MalformedStatusLine);
            },
        };
        match parse_fields(&text) {
            Err(e) => Err(e),
            Ok((headers, body)) => Ok(
                Request { headers, body, method, version, path, host: String::new() },
            ),
        }
    }

    /// Replaces the method.
    pub fn set_method(&mut self, method: &str)
        ensures
            final(self)@ == (RequestView { method: method@, ..old(self)@ }),
    {
        self.method = String::from_str(method);
    }

    /// Replaces the protocol version.
    pub fn set_version(&mut self, version: &str)
        ensures
            final(self)@ == (RequestView { version: version@, ..old(self)@ }),
    {
        self.version = String::from_str(version);
    }

    /// Replaces the body and appends a `Content-Length` header with the
    /// number of bytes of the new body. Earlier `Content-Length` headers stay.
    pub fn set_body(&mut self, body: &str)
        ensures
            final(self)@ == (RequestView {
                body: body@,
                headers: old(self)@.headers.push(
                    (content_length_name(), decimal(byte_len(body@))),
                ),
                ..old(self)@
            }),
    {
        self.body = String::from_str(body);
        let length = to_decimal(body.as_bytes().len() as u64);
        self.set_header_attr("Content-Length", length.as_str());
    }

    /// Appends a header. A header of the same name that is already there
    /// stays where it is.
    pub fn set_header_attr(&mut self, attrib: &str, value: &str)
        ensures
            final(self)@ == (RequestView {
                headers: old(self)@.headers.push((attrib@, value@)),
                ..old(self)@
            }),
    {
        push_header(&mut self.headers, attrib, value);
    }

    /// The wire text of the request.
    pub fn build(&self) -> (text: String)
        ensures
            text@ == request_text(self@),
    {
        let mut text = String::new();
        text.append(self.method.as_str());
        text.append(space_str());
        text.append(self.path.as_str());
        text.append(space_str());
        text.append(self.version.as_str());
        text.append(crlf_str());
        push_header_block(&mut text, &self.headers);
        text.append(crlf_str());
        text.append(self.body.as_str());
        assert(text@ =~= request_text(self@));
        text
    }

    /// The method.
    pub fn method(&self) -> (method: &str)
        ensures
            method@ == self@.method,
    {
        self.method.as_str()
    }

    /// The path.
    pub fn path(&self) -> (path: &str)
        ensures
            path@ == self@.path,
    {
        self.path.as_str()
    }

    /// The protocol version.
    pub fn version(&self) -> (version: &str)
        ensures
            version@ == self@.version,
    {
        self.version.as_str()
    }

    /// The host that the request was made for; empty on a request that was
    /// read from its wire text.
    pub fn host(&self) -> (host: &str)
        ensures
            host@ == self@.host,
    {
        self.host.as_str()
    }

    /// The header list, in the order in which the headers were added.
    pub fn headers(&self) -> (headers: &Vec<(String, String)>)
        ensures
            headers.deep_view() == self@.headers,
    {
        &self.headers
    }

    /// The body.
    pub fn body(&self) -> (body: &str)
        ensures
            body@ == self@.body,
    {
        self.body.as_str()
    }
}

/// The text of a new request is its request line, which ends in the default
/// version, the line of the `Host` header, and the blank line. So the text
/// begins with the request line and holds the line of the host right after
/// it.
pub proof fn lemma_new_request_text(host: Seq<char>, path: Seq<char>, method: Seq<char>)
    ensures
        request_text(new_request(host, path, method)) == method + seq![' '] + path + seq![' ']
            + default_version() + crlf() + header_line((host_name(), host)) + crlf(),
        (method + seq![' '] + path + seq![' '] + default_version() + crlf()).is_prefix_of(
            request_text(new_request(host, path, method)),
        ),
        occurs_at(
            request_text(new_request(host, path, method)),
            header_line((host_name(), host)),
            (method + seq![' '] + path + seq![' '] + default_version() + crlf()).len() as int,
        ),
{
    let q = new_request(host, path, method);
    let start = method + seq![' '] + path + seq![' '] + default_version() + crlf();
    let line = header_line((host_name(), host));
    lemma_header_block_empty();
    lemma_header_block_push(Seq::empty(), (host_name(), host));
    assert(q.headers =~= Seq::empty().push((host_name(), host)));
    assert(header_block(q.headers) =~= line);
    let text = request_text(q);
    assert(text =~= start + line + crlf());
    assert(text.subrange(start.len() as int, start.len() as int + line.len()) =~= line);
}

/// Two headers that are appended one after the other both stand in the text
/// of the request, after the headers that were there and in the order in which
/// they were appended, also where both carry the same name.
pub proof fn lemma_request_text_push_twice(
    q: RequestView,
    first: (Seq<char>, Seq<char>),
    second: (Seq<char>, Seq<char>),
)
    ensures
        request_text(RequestView { headers: q.headers.push(first).push(second), ..q })
            == request_line(q) + crlf() + header_block(q.headers) + header_line(first)
            + header_line(second) + crlf() + q.body,
{
    lemma_header_block_push_twice(q.headers, first, second);
    let after = RequestView { headers: q.headers.push(first).push(second), ..q };
    assert(request_text(after) =~= request_line(q) + crlf() + header_block(q.headers)
        + header_line(first) + header_line(second) + crlf() + q.body);
}

} // verus!
