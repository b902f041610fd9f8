//! Reading the lines of a message: the header section and the body.
//!
//! A message is cut into lines at every line terminator. The first line is
//! the start line, which requests and responses read each in their own way.
//! The lines after it, up to the first empty one, are headers; what follows the
//! empty line is the body.

use vstd::prelude::*;
use crate::header::push_header;
use crate::text::{
    crlf, find, find_char, find_crlf, lemma_split_window, split, trim, trim_range, Text,
};

verus! {

/// Why a text is not a message.
#[derive(Debug, Clone, Copy, PartialEq, Eq)]
pub enum ParseError {
    /// The start line has too few parts, or the status code of a response is
    /// no number of 32 bits.
    MalformedStatusLine,
    /// A line of the header section holds no colon.
    MalformedHeaderLine,
    /// The text ends before an empty line has closed the header section.
    MissingHeaderSeparator,
}

/// The lines of a text.
pub open spec fn lines_of(text: Seq<char>) -> Seq<Seq<char>> {
    split(text, crlf())
}

/// The line holds a colon.
pub open spec fn has_colon(line: Seq<char>) -> bool {
    find(line, seq![':']) is Some
}

/// The header that a line stands for: the name is what precedes the first
/// colon, the value is what follows it, both without surrounding whitespace.
pub open spec fn header_of(line: Seq<char>) -> (Seq<char>, Seq<char>)
    recommends
        has_colon(line),
{
    let colon = find(line, seq![':'])->0;
    (trim(line.subrange(0, colon)), trim(line.subrange(colon + 1, line.len() as int)))
}

/// The index of the first empty line at or after `from`, or the number of
/// lines where there is none.
pub open spec fn first_blank(lines: Seq<Seq<char>>, from: int) -> int
    decreases lines.len() - from,
{
    if from >= lines.len() {
        lines.len() as int
    } else if lines[from].len() == 0 {
        from
    } else {
        first_blank(lines, from + 1)
    }
}

/// A text without its line terminators: its lines, put together with
/// nothing between them.
pub open spec fn joined_lines(text: Seq<char>) -> Seq<char> {
    lines_of(text).flatten()
}

/// The header list and the body that the lines of a message hold, or the
/// first thing that is wrong with them.
///
/// The headers are the lines between the start line and the first empty
/// line. The body is made of the lines after that empty line, put together
/// with nothing between them.
pub open spec fn fields_of(lines: Seq<Seq<char>>) -> Result<
    (Seq<(Seq<char>, Seq<char>)>, Seq<char>),
    ParseError,
> {
    let blank = first_blank(lines, 1);
    if exists|k: int| 1 <= k < blank && !has_colon(#[trigger] lines[k]) {
        Err(ParseError::MalformedHeaderLine)
    } else if blank >= lines.len() {
        Err(ParseError::MissingHeaderSeparator)
    } else {
        Ok(
            (
                Seq::new((blank - 1) as nat, |i: int| header_of(lines[i + 1])),
                lines.subrange(blank + 1, lines.len() as int).flatten(),
            ),
        )
    }
}

/// `first_blank` returns the least index of an empty line at or after `from`.
pub proof fn lemma_first_blank(lines: Seq<Seq<char>>, from: int)
    requires
        0 <= from <= lines.len(),
    ensures
        from <= first_blank(lines, from) <= lines.len(),
        forall|j: int| from <= j < first_blank(lines, from) ==> (#[trigger] lines[j]).len() > 0,
        first_blank(lines, from) < lines.len() ==> lines[first_blank(lines, from)].len() == 0,
    decreases lines.len() - from,
{
    if from < lines.len() && lines[from].len() != 0 {
        lemma_first_blank(lines, from + 1);
    }
}

/// An empty line with none before it is the one that `first_blank` returns.
pub proof fn lemma_first_blank_is(lines: Seq<Seq<char>>, from: int, blank: int)
    requires
        0 <= from <= blank <= lines.len(),
        forall|j: int| from <= j < blank ==> (#[trigger] lines[j]).len() > 0,
        blank < lines.len() ==> lines[blank].len() == 0,
    ensures
        first_blank(lines, from) == blank,
    decreases blank - from,
{
    if from < blank {
        lemma_first_blank_is(lines, from + 1, blank);
    }
}

/// The lines of `text` from index `from` on, put together with nothing
/// between them.
pub fn join_lines(text: &Text, from: usize) -> (joined: String)
    requires
        from <= text@.len(),
    ensures
        joined@ == joined_lines(text@.subrange(from as int, text@.len() as int)),
{
    let n = text.len();
    let ghost goal = lines_of(text@.subrange(from as int, n as int)).flatten();
    let mut joined = String::new();
    let mut start: usize = from;
    loop
        invariant_except_break
            from <= start <= n,
            n == text@.len(),
            joined@ + lines_of(text@.subrange(start as int, n as int)).flatten() == goal,
        ensures
            joined@ == goal,
        decreases n - start,
    {
        let ghost before = joined@;
        proof {
            lemma_split_window(text@, start as int, n as int, crlf());
        }
        match find_crlf(text.chars(), start, n) {
            Some(i) => {
                joined.append(text.slice(start, i));
                proof {
                    let line = text@.subrange(start as int, i as int);
                    let rest = lines_of(text@.subrange(i + 2, n as int));
                    assert((seq![line] + rest).first() == line);
                    assert((seq![line] + rest).drop_first() =~= rest);
                    assert(joined@ + rest.flatten() =~= before + (line + rest.flatten()));
                }
                start = i + 2;
            },
            None => {
                joined.append(text.slice(start, n));
                proof {
                    let line = text@.subrange(start as int, n as int);
                    seq![line].lemma_flatten_one_element();
                }
                break ;
            },
        }
    }
    joined
}

/// Reads the header section and the body of the message `text`.
pub fn parse_fields(text: &Text) -> (r: Result<(Vec<(String, String)>, String), ParseError>)
    ensures
        match r {
            Ok((headers, body)) => fields_of(lines_of(text@)) == Ok::<
                (Seq<(Seq<char>, Seq<char>)>, Seq<char>),
                ParseError,
            >((headers.deep_view(), body@)),
            Err(e) => fields_of(lines_of(text@)) == Err::<
                (Seq<(Seq<char>, Seq<char>)>, Seq<char>),
                ParseError,
            >(e),
        },
{
    let n = text.len();
    let ghost lines = lines_of(text@);
    let mut headers: Vec<(String, String)> = Vec::new();
    let mut start: usize = 0;
    proof {
        lemma_split_window(text@, 0, n as int, crlf());
        assert(text@.subrange(0, n as int) =~= text@);
    }
    match find_crlf(text.chars(), 0, n) {
        Some(i) => {
            start = i + 2;
        },
        None => {
            return Err(ParseError::MissingHeaderSeparator);
        },
    }
    let ghost mut k: int = 1;
    proof {
        assert(lines.subrange(1, lines.len() as int) =~= lines_of(
            text@.subrange(start as int, n as int),
        ));
        assert(headers.deep_view() =~= Seq::empty());
    }
    loop
        invariant
            start <= n,
            n == text@.len(),
            lines == lines_of(text@),
            1 <= k < lines.len(),
            lines.subrange(k, lines.len() as int) == lines_of(text@.subrange(start as int, n as int)),
            forall|j: int| 1 <= j < k ==> (#[trigger] lines[j]).len() > 0 && has_colon(lines[j]),
            headers.deep_view().len() == k - 1,
            forall|i: int| 0 <= i < k - 1 ==> headers.deep_view()[i] == header_of(lines[i + 1]),
        decreases n - start,
    {
        let ghost tail = lines.subrange(k, lines.len() as int);
        proof {
            lemma_split_window(text@, start as int, n as int, crlf());
            assert(tail[0] == lines[k]);
        }
        let found = find_crlf(text.chars(), start, n);
        let end = match found {
            Some(i) => i,
            None => n,
        };
        let ghost line = text@.subrange(start as int, end as int);
        proof {
            assert(lines[k] == line);
            match found {
                Some(i) => {
                    assert(lines.subrange(k + 1, lines.len() as int) =~= tail.drop_first());
                    assert(tail.drop_first() =~= lines_of(text@.subrange(i + 2, n as int)));
                },
                None => {
                    assert(tail.len() == 1);
                    assert(lines.len() == k + 1);
                },
            }
        }
        if end == start {
            let body = match found {
                Some(i) => join_lines(text, i + 2),
                None => String::new(),
            };
            proof {
                lemma_first_blank_is(lines, 1, k);
                let rest = lines.subrange(k + 1, lines.len() as int);
                if found is None {
                    assert(rest =~= Seq::empty());
                    assert(rest.flatten() =~= Seq::empty());
                }
                assert(body@ == rest.flatten());
                assert(headers.deep_view() =~= Seq::new(
                    (k - 1) as nat,
                    |i: int| header_of(lines[i + 1]),
                ));
            }
            return Ok((headers, body));
        }
        let colon = match find_char(text.chars(), start, end, ':') {
            Some(c) => c,
            None => {
                proof {
                    lemma_first_blank(lines, 1);
                    assert(first_blank(lines, 1) > k);
                    assert(!has_colon(lines[k]));
                }
                return Err(ParseError::MalformedHeaderLine);
            },
        };
        let name = trim_range(text.chars(), start, colon);
        let value = trim_range(text.chars(), colon + 1, end);
        let ghost earlier = headers.deep_view();
        push_header(&mut headers, text.slice(name.0, name.1), text.slice(value.0, value.1));
        proof {
            assert(line.subrange(0, colon - start) =~= text@.subrange(start as int, colon as int));
            assert(line.subrange(colon - start + 1, line.len() as int) =~= text@.subrange(
                colon + 1,
                end as int,
            ));
            assert(headers.deep_view()[k - 1] == header_of(lines[k]));
            assert forall|i: int| 0 <= i < k implies headers.deep_view()[i] == header_of(
                lines[i + 1],
            ) by {
                if i < k - 1 {
                    assert(headers.deep_view()[i] == earlier[i]);
                }
            }
        }
        match found {
            Some(i) => {
                start = i + 2;
                proof {
                    k = k + 1;
                }
            },
            None => {
                proof {
                    lemma_first_blank_is(lines, 1, k + 1);
                }
                return Err(ParseError::MissingHeaderSeparator);
            },
        }
    }
}

} // verus!
