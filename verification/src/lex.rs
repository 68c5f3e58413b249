//! Character classes and small text helpers shared by the word extractor and
//! the signature scanner.

use vstd::prelude::*;
use vstd::string::StrSliceExecFns;

verus! {

/// A token character: ASCII alphanumeric or underscore. Tokens are maximal
/// runs of these, so they never span a line break.
pub open spec fn is_word_char(c: char) -> bool {
    ('a' <= c && c <= 'z') || ('A' <= c && c <= 'Z') || ('0' <= c && c <= '9') || c == '_'
}

/// Whitespace as the signature scanner skips it between a call's opening
/// parenthesis and the called identifier.
pub open spec fn is_space_char(c: char) -> bool {
    c == ' ' || c == '\t' || c == '\n' || c == '\r'
}

/// Executable mirror of [`is_word_char`].
pub fn word_char(c: char) -> (r: bool)
    ensures
        r == is_word_char(c),
{
    ('a' <= c && c <= 'z') || ('A' <= c && c <= 'Z') || ('0' <= c && c <= '9') || c == '_'
}

/// Executable mirror of [`is_space_char`].
pub fn space_char(c: char) -> (r: bool)
    ensures
        r == is_space_char(c),
{
    c == ' ' || c == '\t' || c == '\n' || c == '\r'
}

/// The characters of `s` as a vector, for random access while scanning.
#[verifier::loop_isolation(false)]
pub fn text_chars(s: &str) -> (v: Vec<char>)
    ensures
        v@ == s@,
{
    let n = s.unicode_len();
    let mut v: Vec<char> = Vec::new();
    let mut i: usize = 0;
    while i < n
        invariant
            n == s@.len(),
            0 <= i <= n,
            v@ == s@.take(i as int),
        decreases n - i,
    {
        v.push(s.get_char(i));
        proof {
            assert(v@ =~= s@.take(i + 1 as int));
        }
        i = i + 1;
    }
    proof {
        assert(v@ =~= s@);
    }
    v
}

/// Relies on `core::iter::Iterator::collect` for `String`: collecting the
/// characters of the vector yields the string with exactly those characters.
#[verifier::external_body]
pub fn string_from_chars(v: &Vec<char>) -> (r: String)
    ensures
        r@ == v@,
{
    v.iter().collect()
}

/// Start of the maximal run of token characters ending at `p`: the least
/// offset `s` such that every character in `[s, p)` is a token character.
pub open spec fn word_start(text: Seq<char>, p: int) -> int
    decreases p,
{
    if p <= 0 {
        0
    } else if is_word_char(text[p - 1]) {
        word_start(text, p - 1)
    } else {
        p
    }
}

/// End of the maximal run of token characters starting at `p`: the greatest
/// offset `e` such that every character in `[p, e)` is a token character.
pub open spec fn word_end(text: Seq<char>, p: int) -> int
    decreases text.len() - p,
{
    if p < 0 {
        0
    } else if p >= text.len() {
        text.len() as int
    } else if is_word_char(text[p]) {
        word_end(text, p + 1)
    } else {
        p
    }
}

/// Offset reached from `p` by stepping left over whitespace.
pub open spec fn skip_spaces(text: Seq<char>, p: int) -> int
    decreases p,
{
    if p <= 0 {
        0
    } else if is_space_char(text[p - 1]) {
        skip_spaces(text, p - 1)
    } else {
        p
    }
}

/// The start of a token run never lies right of the run's end.
pub proof fn lemma_word_start_bounds(text: Seq<char>, p: int)
    requires
        0 <= p,
    ensures
        0 <= word_start(text, p) <= p,
    decreases p,
{
    if p > 0 && is_word_char(text[p - 1]) {
        lemma_word_start_bounds(text, p - 1);
    }
}

/// The end of a token run stays within the text.
pub proof fn lemma_word_end_bounds(text: Seq<char>, p: int)
    requires
        0 <= p <= text.len(),
    ensures
        p <= word_end(text, p) <= text.len(),
    decreases text.len() - p,
{
    if p < text.len() && is_word_char(text[p]) {
        lemma_word_end_bounds(text, p + 1);
    }
}

/// Skipping whitespace moves left and never past the start of the text.
pub proof fn lemma_skip_spaces_bounds(text: Seq<char>, p: int)
    requires
        0 <= p,
    ensures
        0 <= skip_spaces(text, p) <= p,
    decreases p,
{
    if p > 0 && is_space_char(text[p - 1]) {
        lemma_skip_spaces_bounds(text, p - 1);
    }
}

/// Walk left from `from` over token characters to the start of the run.
pub fn scan_word_start(chars: &Vec<char>, from: usize) -> (s: usize)
    requires
        from <= chars@.len(),
    ensures
        s as int == word_start(chars@, from as int),
        s <= from,
    decreases from,
{
    proof {
        lemma_word_start_bounds(chars@, from as int);
    }
    if from > 0 && word_char(chars[from - 1]) {
        scan_word_start(chars, from - 1)
    } else {
        from
    }
}

/// Walk right from `from` over token characters to the end of the run.
pub fn scan_word_end(chars: &Vec<char>, from: usize) -> (e: usize)
    requires
        from <= chars@.len(),
    ensures
        e as int == word_end(chars@, from as int),
        from <= e <= chars@.len(),
    decreases chars@.len() - from,
{
    proof {
        lemma_word_end_bounds(chars@, from as int);
    }
    if from < chars.len() && word_char(chars[from]) {
        scan_word_end(chars, from + 1)
    } else {
        from
    }
}

/// Walk left from `from` over whitespace.
pub fn scan_skip_spaces(chars: &Vec<char>, from: usize) -> (s: usize)
    requires
        from <= chars@.len(),
    ensures
        s as int == skip_spaces(chars@, from as int),
        s <= from,
    decreases from,
{
    proof {
        lemma_skip_spaces_bounds(chars@, from as int);
    }
    if from > 0 && space_char(chars[from - 1]) {
        scan_skip_spaces(chars, from - 1)
    } else {
        from
    }
}

} // verus!
