//! Character sequences: searching, splitting and trimming.
//!
//! The specification functions work on `Seq<char>`, the view of a string. The
//! executable functions work on a window `from..to` of a vector of characters,
//! so that a parser can walk a text without copying it.

use vstd::prelude::*;
use vstd::string::is_ascii;

verus! {

// What the contracts speak of.

/// The line terminator: carriage return, line feed.
pub open spec fn crlf() -> Seq<char> {
    seq!['\r', '\n']
}

/// `pat` stands in `s` at index `i`.
pub open spec fn occurs_at(s: Seq<char>, pat: Seq<char>, i: int) -> bool {
    &&& 0 <= i
    &&& i + pat.len() <= s.len()
    &&& s.subrange(i, i + pat.len()) == pat
}

/// The index of the first occurrence of `pat` in `s`, or `None` where `pat`
/// does not occur in `s`.
pub open spec fn find(s: Seq<char>, pat: Seq<char>) -> Option<int>
    decreases s.len(),
{
    if occurs_at(s, pat, 0) {
        Some(0)
    } else if s.len() == 0 {
        None
    } else {
        match find(s.drop_first(), pat) {
            Some(i) => Some(i + 1),
            None => None,
        }
    }
}

/// The pieces of `s` between the occurrences of `pat`, taken from the left and
/// without overlap. A text without an occurrence is one piece; an occurrence at
/// the very end leaves an empty last piece.
pub open spec fn split(s: Seq<char>, pat: Seq<char>) -> Seq<Seq<char>>
    recommends
        pat.len() > 0,
    decreases s.len(),
    when pat.len() > 0
{
    match find(s, pat) {
        None => seq![s],
        Some(i) => {
            proof {
                lemma_find_least(s, pat);
            }
            seq![s.subrange(0, i)] + split(s.subrange(i + pat.len(), s.len() as int), pat)
        },
    }
}

/// The characters that `str::trim` removes: those with the Unicode property
/// `White_Space`.
pub open spec fn is_whitespace(c: char) -> bool {
    let u = c as u32;
    ||| 0x09 <= u <= 0x0D
    ||| u == 0x20
    ||| u == 0x85
    ||| u == 0xA0
    ||| u == 0x1680
    ||| 0x2000 <= u <= 0x200A
    ||| u == 0x2028
    ||| u == 0x2029
    ||| u == 0x202F
    ||| u == 0x205F
    ||| u == 0x3000
}

/// `s` without its leading whitespace.
pub open spec fn trim_start(s: Seq<char>) -> Seq<char>
    decreases s.len(),
{
    if s.len() > 0 && is_whitespace(s.first()) {
        trim_start(s.drop_first())
    } else {
        s
    }
}

/// `s` without its trailing whitespace.
pub open spec fn trim_end(s: Seq<char>) -> Seq<char>
    decreases s.len(),
{
    if s.len() > 0 && is_whitespace(s.last()) {
        trim_end(s.drop_last())
    } else {
        s
    }
}

/// `s` without its leading and trailing whitespace.
pub open spec fn trim(s: Seq<char>) -> Seq<char> {
    trim_end(trim_start(s))
}

/// `s` neither begins nor ends with whitespace.
pub open spec fn is_trimmed(s: Seq<char>) -> bool {
    s.len() > 0 ==> !is_whitespace(s.first()) && !is_whitespace(s.last())
}

/// The pieces with `pat` written between them.
pub open spec fn join(pieces: Seq<Seq<char>>, pat: Seq<char>) -> Seq<char>
    decreases pieces.len(),
{
    if pieces.len() == 0 {
        Seq::empty()
    } else if pieces.len() == 1 {
        pieces[0]
    } else {
        pieces[0] + pat + join(pieces.drop_first(), pat)
    }
}

/// `pat` occurs nowhere in `s`.
pub open spec fn free_of(s: Seq<char>, pat: Seq<char>) -> bool {
    find(s, pat) is None
}

/// The number of bytes that `s` takes in UTF-8, which is what `str::len`
/// returns.
pub open spec fn byte_len(s: Seq<char>) -> nat {
    vstd::utf8::encode_utf8(s).len()
}

// Searching and splitting.

/// `find` returns the least index at which `pat` occurs, and `None` exactly
/// when it occurs nowhere.
pub proof fn lemma_find_least(s: Seq<char>, pat: Seq<char>)
    ensures
        match find(s, pat) {
            Some(i) => occurs_at(s, pat, i) && forall|j: int| 0 <= j < i ==> !occurs_at(s, pat, j),
            None => forall|j: int| !occurs_at(s, pat, j),
        },
    decreases s.len(),
{
    if occurs_at(s, pat, 0) {
    } else if s.len() == 0 {
    } else {
        let t = s.drop_first();
        lemma_find_least(t, pat);
        assert forall|j: int| 0 <= j implies occurs_at(t, pat, j) == occurs_at(s, pat, j + 1) by {
            if j + pat.len() <= t.len() {
                assert(t.subrange(j, j + pat.len()) =~= s.subrange(j + 1, j + 1 + pat.len()));
            }
        }
        match find(t, pat) {
            Some(i) => {
                assert forall|j: int| 0 <= j < i + 1 implies !occurs_at(s, pat, j) by {
                    if j > 0 {
                        assert(occurs_at(t, pat, j - 1) == occurs_at(s, pat, j - 1 + 1));
                    }
                }
            },
            None => {
                assert forall|j: int| !occurs_at(s, pat, j) by {
                    if j > 0 {
                        assert(occurs_at(t, pat, j - 1) == occurs_at(s, pat, j - 1 + 1));
                    }
                }
            },
        }
    }
}

/// An occurrence with none before it is the one that `find` returns.
pub proof fn lemma_find_is(s: Seq<char>, pat: Seq<char>, i: int)
    requires
        occurs_at(s, pat, i),
        forall|j: int| 0 <= j < i ==> !occurs_at(s, pat, j),
    ensures
        find(s, pat) == Some(i),
{
    lemma_find_least(s, pat);
}

/// Where `pat` occurs nowhere, `find` returns `None`.
pub proof fn lemma_find_none(s: Seq<char>, pat: Seq<char>)
    requires
        forall|j: int| 0 <= j && j + pat.len() <= s.len() ==> !occurs_at(s, pat, j),
    ensures
        find(s, pat) is None,
{
    lemma_find_least(s, pat);
}

/// A text is free of the character `c` exactly when none of its characters is
/// `c`.
pub proof fn lemma_free_of_char(s: Seq<char>, c: char)
    ensures
        free_of(s, seq![c]) <==> forall|i: int| 0 <= i < s.len() ==> s[i] != c,
{
    let pat = seq![c];
    lemma_find_least(s, pat);
    assert forall|i: int| 0 <= i < s.len() implies (occurs_at(s, pat, i) <==> s[i] == c) by {
        assert(s.subrange(i, i + 1) =~= seq![s[i]]);
        if s[i] == c {
            assert(seq![s[i]] =~= pat);
        } else {
            assert(seq![s[i]][0] != pat[0]);
        }
    }
    match find(s, pat) {
        None => {
            assert forall|i: int| 0 <= i < s.len() implies s[i] != c by {
                assert(!occurs_at(s, pat, i));
            }
        },
        Some(i) => {
            assert(occurs_at(s, pat, i));
            assert(s[i] == c);
        },
    }
}

/// A text is free of line terminators exactly when no carriage return in it
/// is followed by a line feed.
pub proof fn lemma_free_of_crlf(s: Seq<char>)
    ensures
        free_of(s, crlf()) <==> forall|i: int|
            0 <= i && i + 1 < s.len() ==> !(#[trigger] s[i] == '\r' && s[i + 1] == '\n'),
{
    let pat = crlf();
    lemma_find_least(s, pat);
    assert forall|i: int| 0 <= i && i + 1 < s.len() implies (occurs_at(s, pat, i) <==> (s[i]
        == '\r' && s[i + 1] == '\n')) by {
        let w = s.subrange(i, i + 2);
        assert(w[0] == s[i] && w[1] == s[i + 1]);
        assert(pat[0] == '\r' && pat[1] == '\n');
        if s[i] == '\r' && s[i + 1] == '\n' {
            assert(w =~= pat);
        }
    }
    match find(s, pat) {
        None => {
            assert forall|i: int| 0 <= i && i + 1 < s.len() implies !(#[trigger] s[i] == '\r'
                && s[i + 1] == '\n') by {
                assert(!occurs_at(s, pat, i));
            }
        },
        Some(i) => {
            assert(occurs_at(s, pat, i));
            assert(s[i] == '\r' && s[i + 1] == '\n');
        },
    }
}

/// Where the first occurrence of `pat` is the one written between `head` and
/// `tail`, the first piece is `head` and the others are those of `tail`.
pub proof fn lemma_split_after(head: Seq<char>, pat: Seq<char>, tail: Seq<char>)
    requires
        pat.len() > 0,
        find(head + pat + tail, pat) == Some(head.len() as int),
    ensures
        split(head + pat + tail, pat) == seq![head] + split(tail, pat),
{
    let s = head + pat + tail;
    assert(s.subrange(0, head.len() as int) =~= head);
    assert(s.subrange(head.len() as int + pat.len(), s.len() as int) =~= tail);
}

/// In a text that is free of `c` and is followed by `c`, the first `c` is the
/// one that follows.
pub proof fn lemma_find_char_after(head: Seq<char>, c: char, tail: Seq<char>)
    requires
        free_of(head, seq![c]),
    ensures
        find(head + seq![c] + tail, seq![c]) == Some(head.len() as int),
{
    let pat = seq![c];
    let s = head + pat + tail;
    lemma_free_of_char(head, c);
    assert(s.subrange(head.len() as int, head.len() as int + 1) =~= pat);
    assert forall|j: int| 0 <= j < head.len() implies !occurs_at(s, pat, j) by {
        assert(s.subrange(j, j + 1)[0] == head[j]);
        assert(pat[0] == c);
    }
    lemma_find_is(s, pat, head.len() as int);
}

/// A text that is free of `c` and is followed by `c` is a piece of its own.
pub proof fn lemma_split_char(head: Seq<char>, c: char, tail: Seq<char>)
    requires
        free_of(head, seq![c]),
    ensures
        split(head + seq![c] + tail, seq![c]) == seq![head] + split(tail, seq![c]),
{
    lemma_find_char_after(head, c, tail);
    lemma_split_after(head, seq![c], tail);
}

/// A text that is free of line terminators and is followed by one is a line
/// of its own.
pub proof fn lemma_split_crlf(head: Seq<char>, tail: Seq<char>)
    requires
        free_of(head, crlf()),
    ensures
        split(head + crlf() + tail, crlf()) == seq![head] + split(tail, crlf()),
{
    let pat = crlf();
    let s = head + pat + tail;
    lemma_free_of_crlf(head);
    assert(s.subrange(head.len() as int, head.len() as int + 2) =~= pat);
    assert forall|j: int| 0 <= j < head.len() implies !occurs_at(s, pat, j) by {
        let w = s.subrange(j, j + 2);
        assert(pat[0] == '\r' && pat[1] == '\n');
        if j + 1 < head.len() {
            assert(w[0] == head[j] && w[1] == head[j + 1]);
        } else {
            assert(w[1] == '\r');
        }
    }
    lemma_find_is(s, pat, head.len() as int);
    lemma_split_after(head, pat, tail);
}

/// Splitting loses nothing and leaves nothing to split: there is a piece, no
/// piece holds `pat`, and the pieces with `pat` between them are the text.
pub proof fn lemma_split_pieces(s: Seq<char>, pat: Seq<char>)
    requires
        pat.len() > 0,
    ensures
        split(s, pat).len() >= 1,
        forall|k: int| 0 <= k < split(s, pat).len() ==> free_of(#[trigger] split(s, pat)[k], pat),
        join(split(s, pat), pat) == s,
    decreases s.len(),
{
    lemma_find_least(s, pat);
    match find(s, pat) {
        None => {},
        Some(i) => {
            let head = s.subrange(0, i);
            let rest = s.subrange(i + pat.len(), s.len() as int);
            let pieces = split(s, pat);
            lemma_split_pieces(rest, pat);
            assert forall|j: int| 0 <= j && j + pat.len() <= head.len() implies !occurs_at(
                head,
                pat,
                j,
            ) by {
                assert(head.subrange(j, j + pat.len()) =~= s.subrange(j, j + pat.len()));
                assert(!occurs_at(s, pat, j));
            }
            lemma_find_none(head, pat);
            assert(pieces == seq![head] + split(rest, pat));
            assert(pieces[0] == head);
            assert(pieces.drop_first() =~= split(rest, pat));
            assert forall|k: int| 0 <= k < pieces.len() implies free_of(
                #[trigger] pieces[k],
                pat,
            ) by {
                if k > 0 {
                    assert(pieces[k] == split(rest, pat)[k - 1]);
                }
            }
            assert(s =~= head + s.subrange(i, i + pat.len()) + rest);
        },
    }
}

/// A window of a text is split where the text itself holds `pat` in that
/// window.
pub proof fn lemma_split_window(s: Seq<char>, from: int, to: int, pat: Seq<char>)
    requires
        0 <= from <= to <= s.len(),
        pat.len() > 0,
    ensures
        match find(s.subrange(from, to), pat) {
            None => split(s.subrange(from, to), pat) == seq![s.subrange(from, to)],
            Some(i) => 0 <= i && from + i + pat.len() <= to && split(s.subrange(from, to), pat)
                == seq![s.subrange(from, from + i)] + split(
                s.subrange(from + i + pat.len(), to),
                pat,
            ),
        },
{
    let w = s.subrange(from, to);
    lemma_find_least(w, pat);
    match find(w, pat) {
        None => {},
        Some(i) => {
            assert(w.subrange(0, i) =~= s.subrange(from, from + i));
            assert(w.subrange(i + pat.len(), w.len() as int) =~= s.subrange(
                from + i + pat.len(),
                to,
            ));
        },
    }
}

// Trimming and lengths.

/// Leading whitespace may be dropped before trimming the start.
pub proof fn lemma_trim_start_skips(s: Seq<char>, k: int)
    requires
        0 <= k <= s.len(),
        forall|j: int| 0 <= j < k ==> is_whitespace(s[j]),
    ensures
        trim_start(s) == trim_start(s.subrange(k, s.len() as int)),
    decreases k,
{
    if k == 0 {
        assert(s.subrange(0, s.len() as int) =~= s);
    } else {
        let t = s.drop_first();
        lemma_trim_start_skips(t, k - 1);
        assert(t.subrange(k - 1, t.len() as int) =~= s.subrange(k, s.len() as int));
    }
}

/// Trailing whitespace may be dropped before trimming the end.
pub proof fn lemma_trim_end_skips(s: Seq<char>, k: int)
    requires
        0 <= k <= s.len(),
        forall|j: int| k <= j < s.len() ==> is_whitespace(s[j]),
    ensures
        trim_end(s) == trim_end(s.subrange(0, k)),
    decreases s.len() - k,
{
    if k == s.len() {
        assert(s.subrange(0, k) =~= s);
    } else {
        let t = s.drop_last();
        lemma_trim_end_skips(t, k);
        assert(t.subrange(0, k) =~= s.subrange(0, k));
    }
}

/// Whitespace in front of a text is trimmed away with the text's own.
pub proof fn lemma_trim_after_whitespace(c: char, s: Seq<char>)
    requires
        is_whitespace(c),
    ensures
        trim(seq![c] + s) == trim(s),
{
    assert((seq![c] + s).drop_first() =~= s);
}

/// A text of ASCII characters takes one byte for each of them.
pub proof fn lemma_byte_len_ascii(s: Seq<char>)
    requires
        vstd::utf8::is_ascii_chars(s),
    ensures
        byte_len(s) == s.len(),
{
    vstd::utf8::is_ascii_chars_encode_utf8(s);
}

// Executable functions.

/// Tells whether `c` is whitespace.
pub fn is_whitespace_char(c: char) -> (b: bool)
    ensures
        b == is_whitespace(c),
{
    let u: u32 = c as u32;
    (0x09 <= u && u <= 0x0D) || u == 0x20 || u == 0x85 || u == 0xA0 || u == 0x1680 || (0x2000 <= u
        && u <= 0x200A) || u == 0x2028 || u == 0x2029 || u == 0x202F || u == 0x205F || u == 0x3000
}

/// The characters of `s`, in order.
pub fn chars_of(s: &str) -> (v: Vec<char>)
    ensures
        v@ == s@,
{
    let mut v: Vec<char> = Vec::new();
    for c in it: s.chars()
        invariant
            v@ == it.seq().take(it.index() as int),
    {
        v.push(c);
    }
    v
}

/// The first index in `from..to` at which `text` holds `c`.
pub fn find_char(text: &Vec<char>, from: usize, to: usize, c: char) -> (r: Option<usize>)
    requires
        from <= to <= text.len(),
    ensures
        match r {
            Some(i) => from <= i < to && find(text@.subrange(from as int, to as int), seq![c])
                == Some(i - from),
            None => find(text@.subrange(from as int, to as int), seq![c]) is None,
        },
{
    let ghost window = text@.subrange(from as int, to as int);
    let ghost pat = seq![c];
    let mut i: usize = from;
    while i < to
        invariant
            from <= i <= to <= text.len(),
            window == text@.subrange(from as int, to as int),
            pat == seq![c],
            forall|j: int| 0 <= j < i - from ==> !occurs_at(window, pat, j),
        decreases to - i,
    {
        proof {
            assert(window.subrange(i - from, i - from + 1) =~= seq![window[i - from]]);
            assert(seq![window[i - from]][0] == window[i - from]);
        }
        if text[i] == c {
            proof {
                assert(window.subrange(i - from, i - from + 1) =~= pat);
                lemma_find_is(window, pat, i - from);
            }
            return Some(i);
        }
        i += 1;
    }
    proof {
        lemma_find_none(window, pat);
    }
    None
}

/// The first index in `from..to` at which a line terminator begins in `text`.
pub fn find_crlf(text: &Vec<char>, from: usize, to: usize) -> (r: Option<usize>)
    requires
        from <= to <= text.len(),
    ensures
        match r {
            Some(i) => from <= i && i + 2 <= to && find(
                text@.subrange(from as int, to as int),
                crlf(),
            ) == Some(i - from),
            None => find(text@.subrange(from as int, to as int), crlf()) is None,
        },
{
    let ghost window = text@.subrange(from as int, to as int);
    let mut i: usize = from;
    while to - i >= 2
        invariant
            from <= i <= to <= text.len(),
            window == text@.subrange(from as int, to as int),
            forall|j: int| 0 <= j < i - from ==> !occurs_at(window, crlf(), j),
        decreases to - i,
    {
        proof {
            let w = window.subrange(i - from, i - from + 2);
            assert(w[0] == text@[i as int]);
            assert(w[1] == text@[i + 1]);
            assert(crlf()[0] == '\r' && crlf()[1] == '\n');
        }
        if text[i] == '\r' && text[i + 1] == '\n' {
            proof {
                assert(window.subrange(i - from, i - from + 2) =~= crlf());
                lemma_find_is(window, crlf(), i - from);
            }
            return Some(i);
        }
        i += 1;
    }
    proof {
        lemma_find_none(window, crlf());
    }
    None
}

/// The window of `from..to` that is left when the whitespace at both ends of
/// it is taken away.
pub fn trim_range(text: &Vec<char>, from: usize, to: usize) -> (r: (usize, usize))
    requires
        from <= to <= text.len(),
    ensures
        from <= r.0 <= r.1 <= to,
        r.0 == to - trim_start(text@.subrange(from as int, to as int)).len(),
        text@.subrange(r.0 as int, r.1 as int) == trim(text@.subrange(from as int, to as int)),
{
    let ghost window = text@.subrange(from as int, to as int);
    let mut a: usize = from;
    while a < to && is_whitespace_char(text[a])
        invariant
            from <= a <= to <= text.len(),
            window == text@.subrange(from as int, to as int),
            forall|j: int| 0 <= j < a - from ==> is_whitespace(window[j]),
        decreases to - a,
    {
        a += 1;
    }
    let ghost rest = text@.subrange(a as int, to as int);
    proof {
        lemma_trim_start_skips(window, a - from);
        assert(window.subrange(a - from, window.len() as int) =~= rest);
        assert(trim_start(rest) == rest);
    }
    let mut b: usize = to;
    while b > a && is_whitespace_char(text[b - 1])
        invariant
            a <= b <= to <= text.len(),
            rest == text@.subrange(a as int, to as int),
            forall|j: int| b - a <= j < rest.len() ==> is_whitespace(rest[j]),
        decreases b,
    {
        b -= 1;
    }
    proof {
        lemma_trim_end_skips(rest, b - a);
        assert(rest.subrange(0, b - a) =~= text@.subrange(a as int, b as int));
        let kept = text@.subrange(a as int, b as int);
        assert(trim_end(kept) == kept);
    }
    (a, b)
}

/// The line terminator as a string slice.
pub fn crlf_str() -> (s: &'static str)
    ensures
        s@ == crlf(),
{
    proof {
        reveal_strlit("\r\n");
    }
    let s: &'static str = "\r\n";
    assert(s@ =~= crlf());
    s
}

/// A single space as a string slice.
pub fn space_str() -> (s: &'static str)
    ensures
        s@ == seq![' '],
{
    proof {
        reveal_strlit(" ");
    }
    let s: &'static str = " ";
    assert(s@ =~= seq![' ']);
    s
}

/// A text held both as a string slice and as its characters, so that it can
/// be searched by index and cut into slices.
pub struct Text<'a> {
    raw: &'a str,
    chars: Vec<char>,
    ascii: bool,
}

impl<'a> View for Text<'a> {
    type V = Seq<char>;

    closed spec fn view(&self) -> Seq<char> {
        self.raw@
    }
}

impl<'a> Text<'a> {
    #[verifier::type_invariant]
    spec fn consistent(&self) -> bool {
        &&& self.chars@ == self.raw@
        &&& self.ascii ==> is_ascii(self.raw)
    }

    /// Takes the characters of `raw`.
    pub fn new(raw: &'a str) -> (t: Text<'a>)
        ensures
            t@ == raw@,
    {
        Text { raw, chars: chars_of(raw), ascii: raw.is_ascii() }
    }

    /// The number of characters.
    pub fn len(&self) -> (n: usize)
        ensures
            n == self@.len(),
    {
        proof {
            use_type_invariant(self);
        }
        self.chars.len()
    }

    /// The characters, to search in.
    pub fn chars(&self) -> (chars: &Vec<char>)
        ensures
            chars@ == self@,
    {
        proof {
            use_type_invariant(self);
        }
        &self.chars
    }

    /// The characters `from..to` as a string slice. This takes constant time
    /// on a text of ASCII characters, and time linear in `to` on any other.
    pub fn slice(&self, from: usize, to: usize) -> (piece: &'a str)
        requires
            from <= to <= self@.len(),
        ensures
            piece@ == self@.subrange(from as int, to as int),
    {
        proof {
            use_type_invariant(self);
        }
        if self.ascii {
            self.raw.substring_ascii(from, to)
        } else {
            self.raw.substring_char(from, to)
        }
    }
}

} // verus!
