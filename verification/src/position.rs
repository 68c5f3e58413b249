//! Line/column coordinates and their translation to offsets.
//!
//! A cursor coordinate is a pair `(line, column)`: `line` counts
//! newline-terminated lines from zero, `column` counts Unicode scalar values
//! from the start of that line. An offset is an index into the sequence of
//! Unicode scalar values of the text. Carriage returns are ordinary
//! column-advancing characters; only `'\n'` terminates a line.

use vstd::prelude::*;
use vstd::string::StringSliceAdditionalSpecFns;
use vstd::utf8::{encode_scalar, encode_utf8};

verus! {

/// An editor-style cursor coordinate.
#[derive(Debug, Clone, Copy, PartialEq, Eq, Structural, Hash)]
pub struct Position {
    pub line: usize,
    pub column: usize,
}

/// A coordinate span inside one document: the half-open range `[start, end)`.
#[derive(Debug, Clone, Copy, PartialEq, Eq, Structural, Hash)]
pub struct Range {
    pub start: Position,
    pub end: Position,
}

/// Why a coordinate or a coordinate span could not be used against a text.
#[derive(Debug, Clone, Copy, PartialEq, Eq, Structural, Hash)]
pub enum TextError {
    /// The coordinate lies beyond the extent of the text.
    OutOfRange,
    /// An edit's span could not be resolved against the text.
    InvalidRange,
}

/// Number of newline characters among the first `off` characters of `text`:
/// the line on which a cursor standing at `off` sits.
pub open spec fn line_of(text: Seq<char>, off: int) -> int
    decreases off,
{
    if off <= 0 {
        0
    } else {
        line_of(text, off - 1) + if text[off - 1] == '\n' {
            1int
        } else {
            0int
        }
    }
}

/// Offset of the first character of the line containing a cursor at `off`:
/// one past the last newline before `off`, or zero on the first line.
pub open spec fn line_start_of(text: Seq<char>, off: int) -> int
    decreases off,
{
    if off <= 0 {
        0
    } else if text[off - 1] == '\n' {
        off
    } else {
        line_start_of(text, off - 1)
    }
}

/// Column of a cursor at `off`, counted in characters from its line start.
pub open spec fn col_of(text: Seq<char>, off: int) -> int {
    off - line_start_of(text, off)
}

/// The cursor offset `off` lies within `text` and carries the coordinate
/// `(line, column)`.
pub open spec fn coord_matches(text: Seq<char>, off: int, line: int, column: int) -> bool {
    0 <= off <= text.len() && line_of(text, off) == line && col_of(text, off) == column
}

/// The offset that the coordinate `(line, column)` designates in `text`,
/// if the coordinate is in bounds. By [`lemma_coordinate_injective`] at most
/// one offset matches, so the choice is determined.
pub open spec fn offset_of_coord(text: Seq<char>, line: int, column: int) -> Option<int> {
    if exists|off: int| coord_matches(text, off, line, column) {
        Some(choose|off: int| coord_matches(text, off, line, column))
    } else {
        None
    }
}

/// Lines are numbered in passing order: a cursor further right never sits on
/// an earlier line.
proof fn lemma_line_of_monotone(text: Seq<char>, a: int, b: int)
    requires
        a <= b,
    ensures
        line_of(text, a) <= line_of(text, b),
    decreases b - a,
{
    if a < b {
        lemma_line_of_monotone(text, a, b - 1);
    }
}

/// Crossing a newline strictly increases the line number.
proof fn lemma_newline_bumps_line(text: Seq<char>, a: int, b: int)
    requires
        0 <= a < b,
        text[a] == '\n',
    ensures
        line_of(text, b) >= line_of(text, a) + 1,
{
    lemma_line_of_monotone(text, a + 1, b);
}

/// While no newline is passed, the line start does not move.
proof fn lemma_line_start_stable(text: Seq<char>, a: int, b: int)
    requires
        0 <= a <= b,
        forall|k: int| a <= k < b ==> text[k] != '\n',
    ensures
        line_start_of(text, b) == line_start_of(text, a),
    decreases b - a,
{
    if a < b {
        lemma_line_start_stable(text, a, b - 1);
    }
}

/// A line never starts after the cursor that sits on it.
proof fn lemma_line_start_bounds(text: Seq<char>, off: int)
    requires
        0 <= off,
    ensures
        0 <= line_start_of(text, off) <= off,
    decreases off,
{
    if off > 0 {
        lemma_line_start_bounds(text, off - 1);
    }
}

/// Two distinct offsets into the same text never share a coordinate: the
/// coordinate of an offset determines it. Together with the contract of
/// [`Position::get_idx`], resolving a coordinate and reconstructing the
/// coordinate from the returned offset round-trips.
pub proof fn lemma_coordinate_injective(text: Seq<char>, a: int, b: int)
    requires
        0 <= a <= text.len(),
        0 <= b <= text.len(),
        line_of(text, a) == line_of(text, b),
        col_of(text, a) == col_of(text, b),
    ensures
        a == b,
{
    if a < b {
        lemma_coordinate_distinct(text, a, b);
    } else if b < a {
        lemma_coordinate_distinct(text, b, a);
    }
}

/// Helper for [`lemma_coordinate_injective`]: an ordered pair of distinct
/// offsets differs in line or in column.
proof fn lemma_coordinate_distinct(text: Seq<char>, a: int, b: int)
    requires
        0 <= a < b <= text.len(),
    ensures
        line_of(text, a) != line_of(text, b) || col_of(text, a) != col_of(text, b),
{
    if line_of(text, a) == line_of(text, b) {
        assert forall|k: int| a <= k < b implies text[k] != '\n' by {
            if text[k] == '\n' {
                lemma_line_of_monotone(text, a, k);
                lemma_newline_bumps_line(text, k, b);
            }
        }
        lemma_line_start_stable(text, a, b);
        lemma_line_start_bounds(text, a);
    }
}

/// Round trip from a coordinate: the offset that an in-bounds coordinate
/// resolves to carries back exactly that line and column, so reconstructing
/// the coordinate from the offset reproduces it.
pub proof fn lemma_resolve_round_trip(text: Seq<char>, line: int, column: int)
    requires
        offset_of_coord(text, line, column) is Some,
    ensures
        coord_matches(text, offset_of_coord(text, line, column)->0, line, column),
{
}

/// Round trip from an offset: resolving the coordinate reconstructed from an
/// offset returns that offset again.
pub proof fn lemma_offset_round_trip(text: Seq<char>, off: int)
    requires
        0 <= off <= text.len(),
    ensures
        offset_of_coord(text, line_of(text, off), col_of(text, off)) == Some(off),
{
    lemma_found_offset(text, off, line_of(text, off), col_of(text, off));
}

/// The coordinate standing exactly at the end of the buffer resolves to the
/// buffer's length and to nothing else.
pub proof fn lemma_end_coordinate(text: Seq<char>, off: int)
    requires
        0 <= off <= text.len(),
        line_of(text, off) == line_of(text, text.len() as int),
        col_of(text, off) == col_of(text, text.len() as int),
    ensures
        off == text.len(),
{
    lemma_coordinate_injective(text, off, text.len() as int);
}

impl Position {
    /// Offset of this coordinate in `txt`, or `None` when the coordinate lies
    /// beyond the text. A coordinate exactly at the end of the buffer (last
    /// line, column equal to its length) is valid and resolves to the length
    /// of the text.
    #[verifier::loop_isolation(false)]
    pub fn get_idx(self, txt: &str) -> (r: Option<usize>)
        ensures
            match r {
                Some(off) => offset_of_coord(txt@, self.line as int, self.column as int)
                    == Some(off as int),
                None => offset_of_coord(txt@, self.line as int, self.column as int) is None,
            },
    {
        let chars = crate::lex::text_chars(txt);
        let n = chars.len();
        let ghost text = txt@;
        let ghost l = self.line as int;
        let ghost c = self.column as int;
        let mut cur_line: usize = 0;
        let mut cur_col: usize = 0;
        let mut i: usize = 0;
        while i < n
            invariant
                chars@ == text,
                n == text.len(),
                0 <= i <= n,
                cur_line <= i,
                cur_col <= i,
                cur_line as int == line_of(text, i as int),
                cur_col as int == col_of(text, i as int),
                forall|off: int| 0 <= off < i ==> !coord_matches(text, off, l, c),
            decreases n - i,
        {
            if cur_line == self.line && cur_col == self.column {
                proof {
                    lemma_found_offset(text, i as int, l, c);
                }
                return Some(i);
            }
            if chars[i] == '\n' {
                cur_line = cur_line + 1;
                cur_col = 0;
            } else {
                cur_col = cur_col + 1;
            }
            i = i + 1;
        }
        if cur_line == self.line && cur_col == self.column {
            proof {
                lemma_found_offset(text, n as int, l, c);
            }
            Some(n)
        } else {
            proof {
                if exists|off: int| coord_matches(text, off, l, c) {
                    let w = choose|off: int| coord_matches(text, off, l, c);
                    assert(!coord_matches(text, w, l, c));
                }
            }
            None
        }
    }

    /// The coordinate of the cursor standing at character offset `char_idx`
    /// in `input`; an offset beyond the end is treated as the end of the
    /// buffer. Inverse of [`Position::get_idx`]: carriage returns advance the
    /// column like any other character, only `'\n'` starts a new line.
    #[verifier::loop_isolation(false)]
    pub fn new_idx(char_idx: usize, input: &str) -> (r: Self)
        ensures
            ({
                let k = if char_idx as int <= input@.len() {
                    char_idx as int
                } else {
                    input@.len() as int
                };
                r.line as int == line_of(input@, k) && r.column as int == col_of(input@, k)
            }),
    {
        let chars = crate::lex::text_chars(input);
        let n = chars.len();
        let stop = if char_idx <= n {
            char_idx
        } else {
            n
        };
        let ghost text = input@;
        let mut cur_line: usize = 0;
        let mut cur_col: usize = 0;
        let mut i: usize = 0;
        while i < stop
            invariant
                chars@ == text,
                n == text.len(),
                stop <= n,
                0 <= i <= stop,
                cur_line <= i,
                cur_col <= i,
                cur_line as int == line_of(text, i as int),
                cur_col as int == col_of(text, i as int),
            decreases stop - i,
        {
            if chars[i] == '\n' {
                cur_line = cur_line + 1;
                cur_col = 0;
            } else {
                cur_col = cur_col + 1;
            }
            i = i + 1;
        }
        Position { line: cur_line, column: cur_col }
    }
}

/// An offset whose coordinate matches is the one that the coordinate
/// designates.
proof fn lemma_found_offset(text: Seq<char>, off: int, line: int, column: int)
    requires
        coord_matches(text, off, line, column),
    ensures
        offset_of_coord(text, line, column) == Some(off),
{
    let w = choose|o: int| coord_matches(text, o, line, column);
    lemma_coordinate_injective(text, w, off);
}

/// Resolve a coordinate to its offset in `text`. The single source of truth
/// for coordinate-to-offset conversion: returns the unique offset whose line
/// and column equal `pos`, or `OutOfRange` when `pos.line` exceeds the number
/// of lines or `pos.column` exceeds the length of its line. The end-of-buffer
/// coordinate always resolves, to the length of the text.
pub fn resolve_offset(text: &str, pos: Position) -> (r: Result<usize, TextError>)
    ensures
        match r {
            Ok(off) => offset_of_coord(text@, pos.line as int, pos.column as int) == Some(
                off as int,
            ),
            Err(e) => e == TextError::OutOfRange && offset_of_coord(
                text@,
                pos.line as int,
                pos.column as int,
            ) is None,
        },
        pos.line as int == line_of(text@, text@.len() as int) && pos.column as int == col_of(
            text@,
            text@.len() as int,
        ) ==> (r matches Ok(off) && off as int == text@.len()),
{
    let r = pos.get_idx(text);
    proof {
        if pos.line as int == line_of(text@, text@.len() as int) && pos.column as int == col_of(
            text@,
            text@.len() as int,
        ) {
            assert(coord_matches(text@, text@.len() as int, pos.line as int, pos.column as int));
            lemma_found_offset(text@, text@.len() as int, pos.line as int, pos.column as int);
        }
    }
    match r {
        Some(off) => Ok(off),
        None => Err(TextError::OutOfRange),
    }
}

/// The UTF-8 byte offset of the character offset `off` in `text`: the length
/// of the encoding of the characters before it.
pub open spec fn byte_offset_of(text: Seq<char>, off: int) -> int {
    encode_utf8(text.take(off)).len() as int
}

/// Encoding a concatenation encodes each part in place.
proof fn lemma_encode_utf8_concat(a: Seq<char>, b: Seq<char>)
    ensures
        encode_utf8(a + b) == encode_utf8(a) + encode_utf8(b),
    decreases a.len(),
{
    if a.len() == 0 {
        assert(a + b =~= b);
        assert(encode_utf8(a) + encode_utf8(b) =~= encode_utf8(b));
    } else {
        assert((a + b).drop_first() =~= a.drop_first() + b);
        lemma_encode_utf8_concat(a.drop_first(), b);
        assert(encode_utf8(a + b) =~= encode_utf8(a) + encode_utf8(b));
    }
}

/// How many bytes the UTF-8 encoding of one character takes.
fn char_utf8_len(c: char) -> (n: usize)
    ensures
        n as int == encode_scalar(c as u32).len(),
        1 <= n <= 4,
{
    broadcast use vstd::utf8::char_is_scalar;

    let u = c as u32;
    if u < 0x80 {
        1
    } else if u < 0x800 {
        2
    } else if u < 0x10000 {
        3
    } else {
        4
    }
}

/// The UTF-8 byte offset of the character offset `char_off` in `text`. The
/// result always falls on a character boundary of the encoded text, since it
/// is the length of the encoding of a prefix of characters.
#[verifier::loop_isolation(false)]
pub fn char_to_byte_offset(text: &str, char_off: usize) -> (r: usize)
    requires
        char_off as int <= text@.len(),
    ensures
        r as int == byte_offset_of(text@, char_off as int),
{
    let total = text.as_bytes().len();
    proof {
        assert(text@.take(text@.len() as int) =~= text@);
        assert(total as int == encode_utf8(text@).len());
    }
    let chars = crate::lex::text_chars(text);
    let mut sum: usize = 0;
    let mut i: usize = 0;
    while i < char_off
        invariant
            chars@ == text@,
            char_off as int <= text@.len(),
            0 <= i <= char_off,
            sum as int == encode_utf8(text@.take(i as int)).len(),
        decreases char_off - i,
    {
        let step = char_utf8_len(chars[i]);
        proof {
            let single = seq![text@[i as int]];
            assert(text@.take(i + 1 as int) =~= text@.take(i as int) + single);
            lemma_encode_utf8_concat(text@.take(i as int), single);
            assert(single.drop_first().len() == 0);
            assert(encode_utf8(single.drop_first()).len() == 0);
            assert(single[0] == text@[i as int]);
            assert(encode_utf8(single).len() == encode_scalar(text@[i as int] as u32).len());
            assert(text@ =~= text@.take(i + 1 as int) + text@.skip(i + 1 as int));
            lemma_encode_utf8_concat(text@.take(i + 1 as int), text@.skip(i + 1 as int));
            assert(sum + step <= total);
        }
        sum = sum + step;
        i = i + 1;
    }
    sum
}

/// Resolve a coordinate to its UTF-8 byte offset in `text`: the byte-level
/// form of [`resolve_offset`]. The end-of-buffer coordinate resolves to the
/// byte length of the text.
pub fn resolve_byte_offset(text: &str, pos: Position) -> (r: Result<usize, TextError>)
    ensures
        match r {
            Ok(b) => {
                let oc = offset_of_coord(text@, pos.line as int, pos.column as int);
                oc is Some && b as int == byte_offset_of(text@, oc->0)
            },
            Err(e) => e == TextError::OutOfRange && offset_of_coord(
                text@,
                pos.line as int,
                pos.column as int,
            ) is None,
        },
        pos.line as int == line_of(text@, text@.len() as int) && pos.column as int == col_of(
            text@,
            text@.len() as int,
        ) ==> (r matches Ok(b) && b as int == text.spec_bytes().len()),
{
    proof {
        assert(text@.take(text@.len() as int) =~= text@);
    }
    match resolve_offset(text, pos) {
        Ok(off) => {
            proof {
                assert(coord_matches(text@, off as int, pos.line as int, pos.column as int));
            }
            Ok(char_to_byte_offset(text, off))
        },
        Err(e) => Err(e),
    }
}

} // verus!
