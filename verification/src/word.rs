//! Word extraction: the identifier token touching a cursor coordinate.
//!
//! A token is a maximal run of ASCII alphanumeric characters and underscores;
//! since a newline is not a token character, tokens never span line breaks.
//! The prefix form returns the characters from the token start up to the
//! cursor, possibly empty; the full form returns the whole contiguous token
//! around the cursor, and a cursor adjacent to either end of a token counts
//! as touching it.

use vstd::prelude::*;
use vstd::string::StrSliceExecFns;

use crate::lex::{scan_word_end, scan_word_start, text_chars, word_end, word_start};
use crate::position::{coord_matches, offset_of_coord, Position};

verus! {

/// The token characters of the line containing `pos`, from the token start
/// up to the cursor: the completion-filter prefix. Empty when the character
/// left of the cursor is not a token character; `None` when `pos` lies
/// beyond the text.
pub fn get_word_in_document<'a>(txt: &'a str, pos: Position) -> (r: Option<&'a str>)
    ensures
        match offset_of_coord(txt@, pos.line as int, pos.column as int) {
            Some(off) => r matches Some(w) && w@ == txt@.subrange(word_start(txt@, off), off),
            None => r is None,
        },
{
    match pos.get_idx(txt) {
        None => None,
        Some(off) => {
            proof {
                lemma_resolved_in_bounds(txt@, pos, off);
            }
            let chars = text_chars(txt);
            let start = scan_word_start(&chars, off);
            Some(txt.substring_char(start, off))
        },
    }
}

/// The whole token under or immediately beside the cursor at `pos`: the
/// hover target. `None` when `pos` lies beyond the text or when no token
/// character is adjacent to the cursor on either side.
pub fn get_word_in_document_full<'a>(txt: &'a str, pos: Position) -> (r: Option<&'a str>)
    ensures
        match offset_of_coord(txt@, pos.line as int, pos.column as int) {
            Some(off) => {
                let s = word_start(txt@, off);
                let e = word_end(txt@, off);
                if s == e {
                    r is None
                } else {
                    r matches Some(w) && w@ == txt@.subrange(s, e)
                }
            },
            None => r is None,
        },
{
    match pos.get_idx(txt) {
        None => None,
        Some(off) => {
            proof {
                lemma_resolved_in_bounds(txt@, pos, off);
            }
            let chars = text_chars(txt);
            let start = scan_word_start(&chars, off);
            let end = scan_word_end(&chars, off);
            if start == end {
                None
            } else {
                Some(txt.substring_char(start, end))
            }
        },
    }
}

/// The completion prefix at a coordinate; see [`get_word_in_document`].
pub fn prefix_word<'a>(text: &'a str, pos: Position) -> (r: Option<&'a str>)
    ensures
        match offset_of_coord(text@, pos.line as int, pos.column as int) {
            Some(off) => r matches Some(w) && w@ == text@.subrange(word_start(text@, off), off),
            None => r is None,
        },
{
    get_word_in_document(text, pos)
}

/// The full token at a coordinate; see [`get_word_in_document_full`].
pub fn full_word<'a>(text: &'a str, pos: Position) -> (r: Option<&'a str>)
    ensures
        match offset_of_coord(text@, pos.line as int, pos.column as int) {
            Some(off) => {
                let s = word_start(text@, off);
                let e = word_end(text@, off);
                if s == e {
                    r is None
                } else {
                    r matches Some(w) && w@ == text@.subrange(s, e)
                }
            },
            None => r is None,
        },
{
    get_word_in_document_full(text, pos)
}

/// An offset that a coordinate resolved to lies within the text.
proof fn lemma_resolved_in_bounds(text: Seq<char>, pos: Position, off: usize)
    requires
        offset_of_coord(text, pos.line as int, pos.column as int) == Some(off as int),
    ensures
        off as int <= text.len(),
{
    assert(coord_matches(text, off as int, pos.line as int, pos.column as int));
}

} // verus!
