//! Incremental edits against a text buffer.
//!
//! An edit either replaces the whole buffer or splices replacement text into
//! a coordinate span. Edits of one batch are applied in the order received,
//! each resolved against the buffer as already mutated by its predecessors.
//! A span that does not resolve makes that edit a no-op — the batch goes on
//! and the failure is reported in the result — never a crash.

use vstd::prelude::*;
use vstd::string::{StrSliceExecFns, StringExecFns};

use crate::position::{coord_matches, offset_of_coord, Range, TextError};

verus! {

/// One replacement against a document buffer.
#[derive(Debug, Clone, PartialEq, Eq)]
pub enum Edit {
    /// Replace the entire buffer content.
    Full(String),
    /// Splice `text` over the coordinate span `range`.
    Splice { range: Range, text: String },
}

/// `text` with the characters of `[start, end)` replaced by `repl`.
pub open spec fn splice(text: Seq<char>, start: int, end: int, repl: Seq<char>) -> Seq<char> {
    text.take(start) + repl + text.skip(end)
}

/// The buffer after one edit, and whether the edit applied. A splice applies
/// when both endpoints resolve against the buffer and stand in order; any
/// other splice leaves the buffer unchanged.
pub open spec fn apply_edit_spec(text: Seq<char>, e: Edit) -> (Seq<char>, bool) {
    match e {
        Edit::Full(s) => (s@, true),
        Edit::Splice { range, text: repl } => {
            let rs = offset_of_coord(text, range.start.line as int, range.start.column as int);
            let re = offset_of_coord(text, range.end.line as int, range.end.column as int);
            if rs is Some && re is Some && rs->0 <= re->0 {
                (splice(text, rs->0, re->0, repl@), true)
            } else {
                (text, false)
            }
        },
    }
}

/// The buffer after a batch of edits, applied front to back, each against
/// the buffer its predecessors left; and whether every edit applied.
pub open spec fn apply_edits_spec(text: Seq<char>, edits: Seq<Edit>) -> (Seq<char>, bool)
    decreases edits.len(),
{
    if edits.len() == 0 {
        (text, true)
    } else {
        let first = apply_edit_spec(text, edits[0]);
        let rest = apply_edits_spec(first.0, edits.drop_first());
        (rest.0, first.1 && rest.1)
    }
}

/// Apply a batch of edits to `buffer` in order. Each splice resolves its
/// endpoints against the current buffer; one whose endpoints do not resolve,
/// or stand reversed, is skipped and the batch continues. `Ok` exactly when
/// every edit applied; a skip surfaces as `InvalidRange`.
#[verifier::loop_isolation(false)]
pub fn apply_edits(buffer: &mut String, edits: &Vec<Edit>) -> (r: Result<(), TextError>)
    ensures
        final(buffer)@ == apply_edits_spec(old(buffer)@, edits@).0,
        match r {
            Ok(_) => apply_edits_spec(old(buffer)@, edits@).1,
            Err(e) => e == TextError::InvalidRange && !apply_edits_spec(old(buffer)@, edits@).1,
        },
{
    let ghost text0 = buffer@;
    proof {
        assert(edits@.skip(0) =~= edits@);
    }
    let mut ok = true;
    let mut i: usize = 0;
    while i < edits.len()
        invariant
            0 <= i <= edits.len(),
            apply_edits_spec(text0, edits@).0 == apply_edits_spec(
                buffer@,
                edits@.skip(i as int),
            ).0,
            apply_edits_spec(text0, edits@).1 == (ok && apply_edits_spec(
                buffer@,
                edits@.skip(i as int),
            ).1),
        decreases edits.len() - i,
    {
        let ghost remaining = edits@.skip(i as int);
        let applied = apply_one(buffer, &edits[i]);
        if !applied {
            ok = false;
        }
        proof {
            assert(remaining[0] == edits@[i as int]);
            assert(remaining.drop_first() =~= edits@.skip(i + 1 as int));
        }
        i = i + 1;
    }
    if ok {
        Ok(())
    } else {
        Err(TextError::InvalidRange)
    }
}

/// Apply one edit against the current buffer; report whether it applied.
fn apply_one(buffer: &mut String, e: &Edit) -> (applied: bool)
    ensures
        final(buffer)@ == apply_edit_spec(old(buffer)@, *e).0,
        applied == apply_edit_spec(old(buffer)@, *e).1,
{
    match e {
        Edit::Full(s) => {
            *buffer = s.clone();
            true
        },
        Edit::Splice { range, text } => {
            let rs = range.start.get_idx(buffer.as_str());
            let re = range.end.get_idx(buffer.as_str());
            match (rs, re) {
                (Some(a), Some(b)) => {
                    if a <= b {
                        proof {
                            assert(coord_matches(
                                buffer@,
                                b as int,
                                range.end.line as int,
                                range.end.column as int,
                            ));
                        }
                        let n = buffer.as_str().unicode_len();
                        let mut out = buffer.as_str().substring_char(0, a).to_owned();
                        out.append(text.as_str());
                        out.append(buffer.as_str().substring_char(b, n));
                        proof {
                            assert(out@ =~= splice(buffer@, a as int, b as int, text@));
                        }
                        *buffer = out;
                        true
                    } else {
                        false
                    }
                },
                _ => {
                    false
                },
            }
        },
    }
}

/// A batch of splice spans against one snapshot: each triple holds the
/// `[start, end)` offsets of a span and its replacement. The spans stand in
/// ascending order, pairwise disjoint, at or right of `lo`, within a text of
/// length `len`.
pub open spec fn spans_ordered(edits: Seq<(int, int, Seq<char>)>, lo: int, len: int) -> bool
    decreases edits.len(),
{
    if edits.len() == 0 {
        lo <= len
    } else {
        lo <= edits[0].0 && edits[0].0 <= edits[0].1 && spans_ordered(
            edits.drop_first(),
            edits[0].1,
            len,
        )
    }
}

/// The batch applied right to left, every span shifted by the constant `d`:
/// a splice never moves the text left of its span, so each earlier span's
/// offsets still mean what they meant in the snapshot.
pub open spec fn splice_descending(
    text: Seq<char>,
    edits: Seq<(int, int, Seq<char>)>,
    d: int,
) -> Seq<char>
    decreases edits.len(),
{
    if edits.len() == 0 {
        text
    } else {
        let last = edits.last();
        splice_descending(splice(text, last.0 + d, last.1 + d, last.2), edits.drop_last(), d)
    }
}

/// The batch applied left to right: each span is shifted by `d` plus the
/// growth that the splices already applied have caused — the offsets a
/// caller would compute against the edit's own pre-edit snapshot.
pub open spec fn splice_ascending(
    text: Seq<char>,
    edits: Seq<(int, int, Seq<char>)>,
    d: int,
) -> Seq<char>
    decreases edits.len(),
{
    if edits.len() == 0 {
        text
    } else {
        let first = edits[0];
        splice_ascending(
            splice(text, first.0 + d, first.1 + d, first.2),
            edits.drop_first(),
            d + first.2.len() - (first.1 - first.0),
        )
    }
}

/// A longer text admits the same ordered batch.
proof fn lemma_spans_ordered_weaken(edits: Seq<(int, int, Seq<char>)>, lo: int, len: int, len2: int)
    requires
        spans_ordered(edits, lo, len),
        len <= len2,
    ensures
        spans_ordered(edits, lo, len2),
    decreases edits.len(),
{
    if edits.len() > 0 {
        lemma_spans_ordered_weaken(edits.drop_first(), edits[0].1, len, len2);
    }
}

/// An ordered batch keeps its order without its last span, which itself
/// stands between the rest and the end of the text.
proof fn lemma_spans_ordered_drop_last(edits: Seq<(int, int, Seq<char>)>, lo: int, len: int)
    requires
        spans_ordered(edits, lo, len),
        edits.len() > 0,
    ensures
        lo <= edits.last().0 <= edits.last().1 <= len,
        spans_ordered(edits.drop_last(), lo, edits.last().0),
    decreases edits.len(),
{
    reveal_with_fuel(spans_ordered, 3);
    if edits.len() == 1 {
        assert(edits.last() == edits[0]);
        assert(edits.drop_first().len() == 0);
        assert(edits.drop_last().len() == 0);
    } else {
        lemma_spans_ordered_drop_last(edits.drop_first(), edits[0].1, len);
        assert(edits.drop_first().last() == edits.last());
        assert(edits.drop_last()[0] == edits[0]);
        assert(edits.drop_last().drop_first() =~= edits.drop_first().drop_last());
    }
}

/// Right-to-left application peels its leftmost span off last.
proof fn lemma_descending_peels_first(text: Seq<char>, edits: Seq<(int, int, Seq<char>)>, d: int)
    requires
        edits.len() > 0,
    ensures
        splice_descending(text, edits, d) == splice(
            splice_descending(text, edits.drop_first(), d),
            edits[0].0 + d,
            edits[0].1 + d,
            edits[0].2,
        ),
    decreases edits.len(),
{
    reveal_with_fuel(splice_descending, 3);
    let last = edits.last();
    let inner = splice(text, last.0 + d, last.1 + d, last.2);
    if edits.len() == 1 {
        assert(edits.drop_first().len() == 0);
        assert(edits.drop_last().len() == 0);
        assert(edits.last() == edits[0]);
    } else {
        lemma_descending_peels_first(inner, edits.drop_last(), d);
        assert(edits.drop_last()[0] == edits[0]);
        assert(edits.drop_first().last() == last);
        assert(edits.drop_last().drop_first() =~= edits.drop_first().drop_last());
    }
}

/// Splicing the span left of an ordered batch commutes with applying the
/// batch right to left, once the batch's constant shift absorbs the left
/// splice's growth.
proof fn lemma_descending_commutes_with_first(
    text: Seq<char>,
    s1: int,
    e1: int,
    r1: Seq<char>,
    edits: Seq<(int, int, Seq<char>)>,
    d: int,
    len: int,
)
    requires
        0 <= s1 + d,
        s1 <= e1,
        spans_ordered(edits, e1, len),
        text.len() == len + d,
    ensures
        splice_descending(
            splice(text, s1 + d, e1 + d, r1),
            edits,
            d + r1.len() - (e1 - s1),
        ) == splice(splice_descending(text, edits, d), s1 + d, e1 + d, r1),
    decreases edits.len(),
{
    if edits.len() > 0 {
        let last = edits.last();
        lemma_spans_ordered_drop_last(edits, e1, len);
        lemma_disjoint_splices_commute(
            text,
            s1 + d,
            e1 + d,
            r1,
            last.0 + d,
            last.1 + d,
            last.2,
        );
        let t_last = splice(text, last.0 + d, last.1 + d, last.2);
        assert(t_last.len() == text.len() + last.2.len() - (last.1 - last.0)) by {
            assert(text.take(last.0 + d).len() == last.0 + d);
            assert(text.skip(last.1 + d).len() == text.len() - (last.1 + d));
        }
        let len2 = len + last.2.len() - (last.1 - last.0);
        lemma_spans_ordered_weaken(edits.drop_last(), e1, last.0, len2);
        lemma_descending_commutes_with_first(t_last, s1, e1, r1, edits.drop_last(), d, len2);
    }
}

/// Ascending and descending application of one ordered batch of disjoint
/// spans yield the same text: the order independence of non-overlapping
/// range edits whose offsets are each computed against the edit's own
/// pre-edit snapshot.
pub proof fn lemma_edit_order_irrelevant(text: Seq<char>, edits: Seq<(int, int, Seq<char>)>)
    requires
        spans_ordered(edits, 0, text.len() as int),
    ensures
        splice_ascending(text, edits, 0) == splice_descending(text, edits, 0),
{
    lemma_edit_order_irrelevant_shifted(text, edits, 0, 0, text.len() as int);
}

/// Generalisation of [`lemma_edit_order_irrelevant`] over a constant shift
/// `d` already applied to every span.
proof fn lemma_edit_order_irrelevant_shifted(
    text: Seq<char>,
    edits: Seq<(int, int, Seq<char>)>,
    d: int,
    lo: int,
    len: int,
)
    requires
        spans_ordered(edits, lo, len),
        0 <= lo + d,
        text.len() == len + d,
    ensures
        splice_ascending(text, edits, d) == splice_descending(text, edits, d),
    decreases edits.len(),
{
    if edits.len() > 0 {
        let first = edits[0];
        let d2 = d + first.2.len() - (first.1 - first.0);
        let t1 = splice(text, first.0 + d, first.1 + d, first.2);
        lemma_spans_bounded(edits.drop_first(), first.1, len);
        assert(t1.len() == text.len() + first.2.len() - (first.1 - first.0)) by {
            assert(text.take(first.0 + d).len() == first.0 + d);
            assert(text.skip(first.1 + d).len() == text.len() - (first.1 + d));
        }
        lemma_edit_order_irrelevant_shifted(t1, edits.drop_first(), d2, first.1, len);
        lemma_descending_commutes_with_first(
            text,
            first.0,
            first.1,
            first.2,
            edits.drop_first(),
            d,
            len,
        );
        lemma_descending_peels_first(text, edits, d);
    }
}

/// The lower bound of an ordered batch never exceeds the text's length.
proof fn lemma_spans_bounded(edits: Seq<(int, int, Seq<char>)>, lo: int, len: int)
    requires
        spans_ordered(edits, lo, len),
    ensures
        lo <= len,
    decreases edits.len(),
{
    if edits.len() > 0 {
        lemma_spans_bounded(edits.drop_first(), edits[0].1, len);
    }
}

/// Two splices over non-overlapping spans of one snapshot commute: applying
/// the right one first and then the left one unchanged, or the left one
/// first and then the right one with its span shifted by the left
/// replacement's growth, yields the same text. This is the order
/// independence of a batch of disjoint range edits whose coordinates are
/// each computed against the edit's own pre-edit snapshot.
pub proof fn lemma_disjoint_splices_commute(
    text: Seq<char>,
    s1: int,
    e1: int,
    r1: Seq<char>,
    s2: int,
    e2: int,
    r2: Seq<char>,
)
    requires
        0 <= s1 <= e1 <= s2 <= e2 <= text.len(),
    ensures
        splice(splice(text, s2, e2, r2), s1, e1, r1) == splice(
            splice(text, s1, e1, r1),
            s2 + r1.len() - (e1 - s1),
            e2 + r1.len() - (e1 - s1),
            r2,
        ),
{
    let d = r1.len() - (e1 - s1);
    let joined = text.take(s1) + r1 + text.subrange(e1, s2) + r2 + text.skip(e2);
    let t2 = splice(text, s2, e2, r2);
    assert(t2.take(s1) =~= text.take(s1));
    assert(t2.skip(e1) =~= text.subrange(e1, s2) + r2 + text.skip(e2));
    assert(splice(t2, s1, e1, r1) =~= joined);
    let t1 = splice(text, s1, e1, r1);
    assert(t1.take(s2 + d) =~= text.take(s1) + r1 + text.subrange(e1, s2));
    assert(t1.skip(e2 + d) =~= text.skip(e2));
    assert(splice(t1, s2 + d, e2 + d, r2) =~= joined);
}

} // verus!
