//! The header list of a message: an ordered sequence of name and value pairs.
//!
//! Order is kept and names may repeat; nothing is merged or normalised.

use vstd::prelude::*;
use crate::text::{crlf, crlf_str};

verus! {

/// What separates a header's name from its value on the wire.
pub open spec fn name_value_separator() -> Seq<char> {
    seq![':', ' ']
}

/// The name of the header that a request is seeded with.
pub open spec fn host_name() -> Seq<char> {
    "Host"@
}

/// The name of the header that announces the length of the body.
pub open spec fn content_length_name() -> Seq<char> {
    "Content-Length"@
}

/// The wire text of one header: name, colon, space, value, line terminator.
pub open spec fn header_line(h: (Seq<char>, Seq<char>)) -> Seq<char> {
    h.0 + name_value_separator() + h.1 + crlf()
}

/// The wire text of a header list: the lines of its headers, in order.
pub open spec fn header_block(hs: Seq<(Seq<char>, Seq<char>)>) -> Seq<char> {
    hs.map_values(|h: (Seq<char>, Seq<char>)| header_line(h)).flatten()
}

/// The block of a list that grew by one header is the old block followed by
/// the line of that header.
pub proof fn lemma_header_block_push(hs: Seq<(Seq<char>, Seq<char>)>, h: (Seq<char>, Seq<char>))
    ensures
        header_block(hs.push(h)) == header_block(hs) + header_line(h),
{
    let f = |h: (Seq<char>, Seq<char>)| header_line(h);
    assert(hs.push(h).map_values(f) =~= hs.map_values(f).push(header_line(h)));
    hs.map_values(f).lemma_flatten_push(header_line(h));
}

/// An empty header list has no text.
pub proof fn lemma_header_block_empty()
    ensures
        header_block(Seq::empty()) == Seq::<char>::empty(),
{
    let f = |h: (Seq<char>, Seq<char>)| header_line(h);
    assert(Seq::<(Seq<char>, Seq<char>)>::empty().map_values(f) =~= Seq::empty());
}

/// Two headers that are appended one after the other both stand in the
/// block, after the headers that were there and in the order in which they
/// were appended, also where both carry the same name.
pub proof fn lemma_header_block_push_twice(
    hs: Seq<(Seq<char>, Seq<char>)>,
    first: (Seq<char>, Seq<char>),
    second: (Seq<char>, Seq<char>),
)
    ensures
        hs.push(first).push(second).len() == hs.len() + 2,
        hs.push(first).push(second)[hs.len() as int] == first,
        hs.push(first).push(second)[hs.len() as int + 1] == second,
        header_block(hs.push(first).push(second)) == header_block(hs) + header_line(first)
            + header_line(second),
{
    lemma_header_block_push(hs, first);
    lemma_header_block_push(hs.push(first), second);
}

/// The separator between name and value as a string slice.
pub fn name_value_separator_str() -> (s: &'static str)
    ensures
        s@ == name_value_separator(),
{
    proof {
        reveal_strlit(": ");
    }
    let s: &'static str = ": ";
    assert(s@ =~= name_value_separator());
    s
}

/// Appends a header to the list.
pub fn push_header(headers: &mut Vec<(String, String)>, name: &str, value: &str)
    ensures
        final(headers).deep_view() == old(headers).deep_view().push((name@, value@)),
{
    headers.push((String::from_str(name), String::from_str(value)));
    assert(final(headers).deep_view() =~= old(headers).deep_view().push((name@, value@)));
}

/// Appends the wire text of `headers` to `out`.
pub fn push_header_block(out: &mut String, headers: &Vec<(String, String)>)
    ensures
        final(out)@ == old(out)@ + header_block(headers.deep_view()),
{
    let ghost hs = headers.deep_view();
    let mut i: usize = 0;
    proof {
        assert(hs.take(0) =~= Seq::empty());
        assert(header_block(Seq::empty()) =~= Seq::empty());
        assert(out@ =~= old(out)@ + header_block(hs.take(0)));
    }
    while i < headers.len()
        invariant
            i <= headers.len(),
            hs == headers.deep_view(),
            hs.len() == headers.len(),
            out@ == old(out)@ + header_block(hs.take(i as int)),
        decreases headers.len() - i,
    {
        let ghost before = out@;
        out.append(headers[i].0.as_str());
        out.append(name_value_separator_str());
        out.append(headers[i].1.as_str());
        out.append(crlf_str());
        proof {
            assert(hs[i as int] == (headers[i as int].0@, headers[i as int].1@));
            assert(hs.take(i + 1) =~= hs.take(i as int).push(hs[i as int]));
            lemma_header_block_push(hs.take(i as int), hs[i as int]);
            assert(out@ =~= before + header_line(hs[i as int]));
            assert(out@ =~= old(out)@ + header_block(hs.take(i + 1)));
        }
        i += 1;
    }
    proof {
        assert(hs.take(i as int) =~= hs);
    }
}

} // verus!
