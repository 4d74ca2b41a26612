//! Reading text by characters: runs of a class of characters, and
//! literals.

use vstd::prelude::*;
use vstd::string::StrSliceExecFns;

verus! {

/// Whether a character is white space in the sense of Unicode.
pub uninterp spec fn char_is_whitespace(c: char) -> bool;

/// Whether a character is alphabetic in the sense of Unicode.
pub uninterp spec fn char_is_alphabetic(c: char) -> bool;

/// `char::is_whitespace`: the answer depends on the character alone.
#[verifier::external_body]
pub(crate) fn is_whitespace(c: char) -> (r: bool)
    ensures
        r == char_is_whitespace(c),
{
    c.is_whitespace()
}

/// `char::is_alphabetic`: the answer depends on the character alone.
#[verifier::external_body]
pub(crate) fn is_alphabetic(c: char) -> (r: bool)
    ensures
        r == char_is_alphabetic(c),
{
    c.is_alphabetic()
}

/// `String::push`: appends one character.
#[verifier::external_body]
pub(crate) fn push_char(s: &mut String, c: char)
    ensures
        final(s)@ == old(s)@.push(c),
{
    s.push(c)
}

/// A class of characters.
#[derive(Debug, Clone, Copy, PartialEq, Eq, Structural)]
pub enum CharClass {
    /// White space.
    Whitespace,
    /// Letters.
    Alphabetic,
    /// The digits 0 to 9 and the point.
    Numeric,
}

impl CharClass {
    /// Whether `c` belongs to the class.
    pub open spec fn holds(self, c: char) -> bool {
        match self {
            CharClass::Whitespace => char_is_whitespace(c),
            CharClass::Alphabetic => char_is_alphabetic(c),
            CharClass::Numeric => ('0' <= c && c <= '9') || c == '.',
        }
    }

    /// Tests whether `c` belongs to the class.
    pub fn test(self, c: char) -> (r: bool)
        ensures
            r == self.holds(c),
    {
        match self {
            CharClass::Whitespace => is_whitespace(c),
            CharClass::Alphabetic => is_alphabetic(c),
            CharClass::Numeric => ('0' <= c && c <= '9') || c == '.',
        }
    }
}

/// The end of the longest run of characters of `class` that begins at
/// `start`.
pub open spec fn run_end(s: Seq<char>, class: CharClass, start: int) -> int
    decreases s.len() - start,
{
    if 0 <= start < s.len() && class.holds(s[start]) {
        run_end(s, class, start + 1)
    } else {
        start
    }
}

/// The run ends within the text, holds characters of the class only, and
/// stops at a character that is not of the class.
pub proof fn lemma_run_end(s: Seq<char>, class: CharClass, start: int)
    requires
        0 <= start <= s.len(),
    ensures
        start <= run_end(s, class, start) <= s.len(),
        forall|i: int| start <= i < run_end(s, class, start) ==> class.holds(#[trigger] s[i]),
        run_end(s, class, start) < s.len() ==> !class.holds(s[run_end(s, class, start)]),
    decreases s.len() - start,
{
    if start < s.len() && class.holds(s[start]) {
        lemma_run_end(s, class, start + 1);
    }
}

/// The end of a run of `class` from `start` whose length is at least
/// `min` and below `max`, if the longest run is such.
pub open spec fn take_while_spec(
    s: Seq<char>,
    start: int,
    class: CharClass,
    min: int,
    max: int,
) -> Option<int> {
    let end = run_end(s, class, start);
    if end - start < min || end - start >= max {
        None
    } else {
        Some(end)
    }
}

/// The end of a word that begins at `start`, if there is one.
pub open spec fn word_spec(s: Seq<char>, start: int) -> Option<int> {
    take_while_spec(s, start, CharClass::Alphabetic, 1, usize::MAX as int)
}

/// The end of the white space that begins at `start`, if there is any.
pub open spec fn space_spec(s: Seq<char>, start: int) -> Option<int> {
    take_while_spec(s, start, CharClass::Whitespace, 1, usize::MAX as int)
}

/// The end of `pattern` at `start`, if the text goes on with it there.
pub open spec fn literal_spec(s: Seq<char>, start: int, pattern: Seq<char>) -> Option<int> {
    if start + pattern.len() <= s.len() && s.subrange(start, start + pattern.len()) == pattern {
        Some(start + pattern.len())
    } else {
        None
    }
}

/// The characters of a text.
pub fn chars_of(s: &str) -> (r: Vec<char>)
    ensures
        r@ == s@,
{
    let n = s.unicode_len();
    let mut out: Vec<char> = Vec::new();
    let mut i: usize = 0;
    while i < n
        invariant
            i <= n,
            n == s@.len(),
            out@ == s@.take(i as int),
        decreases n - i,
    {
        out.push(s.get_char(i));
        proof {
            s@.lemma_take_succ_push(i as int);
        }
        i += 1;
    }
    assert(s@.take(s@.len() as int) =~= s@);
    out
}

/// The text made of the characters from `from` up to `to`.
pub fn text_of(chars: &[char], from: usize, to: usize) -> (r: String)
    requires
        from <= to <= chars@.len(),
    ensures
        r@ == chars@.subrange(from as int, to as int),
{
    let mut out = String::new();
    let mut i: usize = from;
    assert(chars@.subrange(from as int, from as int) =~= Seq::<char>::empty());
    while i < to
        invariant
            from <= i <= to,
            to <= chars@.len(),
            out@ == chars@.subrange(from as int, i as int),
        decreases to - i,
    {
        push_char(&mut out, chars[i]);
        assert(chars@.subrange(from as int, i + 1) =~= chars@.subrange(
            from as int,
            i as int,
        ).push(chars@[i as int]));
        i += 1;
    }
    out
}

/// Reads the longest run of characters of `class` from `start`, and
/// returns its end if its length is at least `min` and below `max`.
pub fn take_while(input: &[char], start: usize, class: CharClass, min: usize, max: usize) -> (r:
    Option<usize>)
    requires
        start <= input@.len(),
    ensures
        match r {
            Some(end) => take_while_spec(input@, start as int, class, min as int, max as int)
                == Some(end as int) && start + min <= end <= input@.len(),
            None => take_while_spec(input@, start as int, class, min as int, max as int) is None,
        },
{
    let mut end: usize = start;
    while end < input.len() && class.test(input[end])
        invariant
            start <= end <= input@.len(),
            run_end(input@, class, start as int) == run_end(input@, class, end as int),
        decreases input@.len() - end,
    {
        end += 1;
    }
    if end - start < min || end - start >= max {
        None
    } else {
        Some(end)
    }
}

/// Reads white space, at least one character.
pub fn space(input: &[char], start: usize) -> (r: Option<usize>)
    requires
        start <= input@.len(),
    ensures
        match r {
            Some(end) => space_spec(input@, start as int) == Some(end as int) && start < end
                <= input@.len(),
            None => space_spec(input@, start as int) is None,
        },
{
    take_while(input, start, CharClass::Whitespace, 1, usize::MAX)
}

/// Reads a word: letters, at least one.
pub fn word(input: &[char], start: usize) -> (r: Option<usize>)
    requires
        start <= input@.len(),
    ensures
        match r {
            Some(end) => word_spec(input@, start as int) == Some(end as int) && start < end
                <= input@.len(),
            None => word_spec(input@, start as int) is None,
        },
{
    take_while(input, start, CharClass::Alphabetic, 1, usize::MAX)
}

/// The place behind the white space at `start`, if there is any.
pub fn skip_space(input: &[char], start: usize) -> (r: usize)
    requires
        start <= input@.len(),
    ensures
        r == run_end(input@, CharClass::Whitespace, start as int),
        start <= r <= input@.len(),
{
    let mut end: usize = start;
    while end < input.len() && is_whitespace(input[end])
        invariant
            start <= end <= input@.len(),
            run_end(input@, CharClass::Whitespace, start as int) == run_end(
                input@,
                CharClass::Whitespace,
                end as int,
            ),
        decreases input@.len() - end,
    {
        end += 1;
    }
    end
}

/// Reads `pattern`.
pub fn literal(input: &[char], start: usize, pattern: &str) -> (r: Option<usize>)
    requires
        start <= input@.len(),
    ensures
        match r {
            Some(end) => literal_spec(input@, start as int, pattern@) == Some(end as int)
                && start <= end <= input@.len(),
            None => literal_spec(input@, start as int, pattern@) is None,
        },
{
    let n = pattern.unicode_len();
    if n > input.len() - start {
        return None;
    }
    let mut i: usize = 0;
    while i < n
        invariant
            i <= n,
            n == pattern@.len(),
            start + n <= input.len(),
            forall|j: int| 0 <= j < i ==> input@[start + j] == pattern@[j],
        decreases n - i,
    {
        if input[start + i] != pattern.get_char(i) {
            assert(input@.subrange(start as int, start + n)[i as int] != pattern@[i as int]);
            return None;
        }
        i += 1;
    }
    assert(input@.subrange(start as int, start + n) =~= pattern@);
    Some(start + n)
}

/// Whether the text holds nothing but white space.
pub fn blank(input: &[char]) -> (r: bool)
    ensures
        r == (run_end(input@, CharClass::Whitespace, 0) == input@.len()),
{
    skip_space(input, 0) == input.len()
}

/// The first place from `start` on at which `c` stands; the length of
/// the text if it stands nowhere.
pub open spec fn find_char(s: Seq<char>, c: char, start: int) -> int
    decreases s.len() - start,
{
    if 0 <= start < s.len() && s[start] != c {
        find_char(s, c, start + 1)
    } else {
        start
    }
}

/// The place that `find_char` yields lies within the text, holds `c` if
/// it is no end, and `c` does not stand before it.
pub proof fn lemma_find_char(s: Seq<char>, c: char, start: int)
    requires
        0 <= start <= s.len(),
    ensures
        start <= find_char(s, c, start) <= s.len(),
        find_char(s, c, start) < s.len() ==> s[find_char(s, c, start)] == c,
        forall|i: int| start <= i < find_char(s, c, start) ==> #[trigger] s[i] != c,
    decreases s.len() - start,
{
    if start < s.len() && s[start] != c {
        lemma_find_char(s, c, start + 1);
    }
}

/// The pieces of the text from `start` on between the places at which `c`
/// stands.
pub open spec fn pieces(s: Seq<char>, c: char, start: int) -> Seq<Seq<char>>
    decreases s.len() - start,
{
    if start < 0 || start > s.len() {
        Seq::empty()
    } else {
        let end = find_char(s, c, start);
        if end >= s.len() {
            seq![s.subrange(start, s.len() as int)]
        } else {
            proof {
                lemma_find_char(s, c, start);
            }
            seq![s.subrange(start, end)] + pieces(s, c, end + 1)
        }
    }
}

/// The end of the text from `lo` to `hi` without the white space that it
/// ends in.
pub open spec fn trim_end(s: Seq<char>, lo: int, hi: int) -> int
    decreases hi - lo,
{
    if lo < hi <= s.len() && char_is_whitespace(s[hi - 1]) {
        trim_end(s, lo, hi - 1)
    } else {
        hi
    }
}

/// The text without the white space around it.
pub open spec fn trimmed(s: Seq<char>) -> Seq<char> {
    let from = run_end(s, CharClass::Whitespace, 0);
    s.subrange(from, trim_end(s, from, s.len() as int))
}

/// Finds the first place from `start` on at which `c` stands.
pub fn find(input: &[char], c: char, start: usize) -> (r: usize)
    requires
        start <= input@.len(),
    ensures
        r == find_char(input@, c, start as int),
        start <= r <= input@.len(),
{
    let mut at: usize = start;
    while at < input.len() && input[at] != c
        invariant
            start <= at <= input@.len(),
            find_char(input@, c, start as int) == find_char(input@, c, at as int),
        decreases input@.len() - at,
    {
        at += 1;
    }
    at
}

/// The places between which the text stands without the white space
/// around it.
pub fn trim(input: &[char]) -> (r: (usize, usize))
    ensures
        r.0 <= r.1 <= input@.len(),
        input@.subrange(r.0 as int, r.1 as int) == trimmed(input@),
{
    let from = skip_space(input, 0);
    let mut to: usize = input.len();
    while from < to && is_whitespace(input[to - 1])
        invariant
            from <= to <= input@.len(),
            trim_end(input@, from as int, input@.len() as int) == trim_end(
                input@,
                from as int,
                to as int,
            ),
        decreases to - from,
    {
        to -= 1;
    }
    (from, to)
}

/// The pieces of the text between the places at which `c` stands, each
/// without the white space around it.
pub open spec fn trimmed_pieces(s: Seq<char>, c: char) -> Seq<Seq<char>> {
    Seq::new(pieces(s, c, 0).len(), |k: int| trimmed(pieces(s, c, 0)[k]))
}

/// Splits the text at the places at which `c` stands, and trims the
/// pieces.
pub fn split_trimmed(input: &[char], c: char) -> (r: Vec<Vec<char>>)
    ensures
        r@.len() == trimmed_pieces(input@, c).len(),
        forall|k: int| 0 <= k < r@.len() ==> (#[trigger] r@[k])@ == trimmed_pieces(input@, c)[k],
{
    let ghost s = input@;
    let mut out: Vec<Vec<char>> = Vec::new();
    let mut start: usize = 0;
    let ghost done: Seq<Seq<char>> = Seq::empty();
    loop
        invariant
            s == input@,
            start <= s.len(),
            out@.len() == done.len(),
            pieces(s, c, 0) == done + pieces(s, c, start as int),
            forall|k: int| 0 <= k < out@.len() ==> (#[trigger] out@[k])@ == trimmed(done[k]),
        decreases s.len() - start,
    {
        let end = find(input, c, start);
        let piece = vstd::slice::slice_subrange(input, start, end);
        let (from, to) = trim(piece);
        let kept = vstd::slice::slice_subrange(piece, from, to);
        let mut copy: Vec<char> = Vec::new();
        let mut i: usize = 0;
        while i < kept.len()
            invariant
                i <= kept.len(),
                copy@ == kept@.take(i as int),
            decreases kept.len() - i,
        {
            copy.push(kept[i]);
            proof {
                kept@.lemma_take_succ_push(i as int);
            }
            i += 1;
        }
        assert(kept@.take(kept@.len() as int) =~= kept@);
        out.push(copy);
        proof {
            let text = s.subrange(start as int, end as int);
            if end >= s.len() {
                assert(pieces(s, c, start as int) =~= seq![text]);
                assert(pieces(s, c, 0) =~= done.push(text));
            } else {
                assert(pieces(s, c, start as int) =~= seq![text] + pieces(s, c, end + 1));
                assert(pieces(s, c, 0) =~= done.push(text) + pieces(s, c, end + 1));
            }
            done = done.push(text);
        }
        if end >= input.len() {
            proof {
                assert(pieces(s, c, 0) =~= done);
            }
            return out;
        }
        start = end + 1;
    }
}

} // verus!
