//! The backward lexical scan that answers "which call encloses the cursor,
//! and which argument slot does the cursor sit in".
//!
//! Starting just left of the cursor, the scanner consumes characters
//! right-to-left. Closed parentheses and brackets are skipped as balanced
//! groups; string and character literals are skipped wholesale, so commas
//! and parentheses inside them never count; a comma at depth zero finishes
//! one argument. The first opening parenthesis seen at depth zero is the
//! enclosing call's own, and the identifier immediately left of it (after
//! whitespace) names the call. An unterminated literal or a scan that
//! exhausts the text yields no context at all.

use vstd::prelude::*;

use crate::lex::{
    scan_skip_spaces, scan_word_start, skip_spaces, string_from_chars, text_chars, word_start,
};
use crate::position::{coord_matches, offset_of_coord, Position};

verus! {

/// One backward step of the argument scan, as a function of the whole
/// remaining prefix `text[0..p]`. `lit` holds the delimiter of the literal
/// being skipped, if any; `paren` and `bracket` count closed groups still
/// open to the left; `args` counts the argument commas seen so far. Yields
/// the argument index and the offset of the enclosing call's opening
/// parenthesis, or `None` when the text runs out first.
pub open spec fn scan_call(
    text: Seq<char>,
    p: int,
    lit: Option<char>,
    paren: nat,
    bracket: nat,
    args: nat,
) -> Option<(nat, int)>
    decreases p,
{
    if p <= 0 {
        None
    } else {
        let c = text[p - 1];
        match lit {
            Some(d) => if c == d {
                scan_call(text, p - 1, None, paren, bracket, args)
            } else {
                scan_call(text, p - 1, Some(d), paren, bracket, args)
            },
            None => if c == '(' {
                if paren == 0 {
                    Some((args, p - 1))
                } else {
                    scan_call(text, p - 1, None, (paren - 1) as nat, bracket, args)
                }
            } else if c == ')' {
                scan_call(text, p - 1, None, paren + 1, bracket, args)
            } else if c == '[' {
                if bracket == 0 {
                    scan_call(text, p - 1, None, paren, 0, args)
                } else {
                    scan_call(text, p - 1, None, paren, (bracket - 1) as nat, args)
                }
            } else if c == ']' {
                scan_call(text, p - 1, None, paren, bracket + 1, args)
            } else if c == '"' || c == '\'' {
                scan_call(text, p - 1, Some(c), paren, bracket, args)
            } else if c == ',' && paren == 0 && bracket == 0 {
                scan_call(text, p - 1, None, paren, bracket, args + 1)
            } else {
                scan_call(text, p - 1, None, paren, bracket, args)
            },
        }
    }
}

/// The enclosing open call at cursor offset `p`: argument index and offset
/// of its opening parenthesis.
pub open spec fn scan_enclosing_call(text: Seq<char>, p: int) -> Option<(nat, int)> {
    scan_call(text, p, None, 0, 0, 0)
}

/// The identifier read leftward from offset `p`, after skipping whitespace;
/// `None` when no token character stands there.
pub open spec fn scan_ident_at(text: Seq<char>, p: int) -> Option<Seq<char>> {
    let q = skip_spaces(text, p);
    let s = word_start(text, q);
    if s == q {
        None
    } else {
        Some(text.subrange(s, q))
    }
}

/// The full signature context at cursor offset `p`: the called identifier
/// and the zero-based argument slot holding the cursor.
pub open spec fn signature_context_at(text: Seq<char>, p: int) -> Option<(Seq<char>, nat)> {
    match scan_enclosing_call(text, p) {
        None => None,
        Some((args, open_at)) => match scan_ident_at(text, open_at) {
            None => None,
            Some(name) => Some((name, args)),
        },
    }
}

/// The cursor lies inside a call to `identifier`, within its
/// `argument_index`-th comma-separated argument slot, counted from zero.
#[derive(Debug, Clone, PartialEq, Eq)]
pub struct SignatureContext {
    pub identifier: String,
    pub argument_index: usize,
}

/// Backward scanner over the characters preceding a cursor offset.
pub struct SignatureIterator {
    data: Vec<char>,
    pos: usize,
}

impl SignatureIterator {
    /// The scanned text.
    pub closed spec fn text(&self) -> Seq<char> {
        self.data@
    }

    /// Offset of the next unconsumed character; the scanner moves left.
    pub closed spec fn position(&self) -> int {
        self.pos as int
    }

    /// The scanner never stands beyond its text.
    pub open spec fn wf(&self) -> bool {
        self.position() <= self.text().len()
    }

    /// A scanner over the characters of `data` before offset `start`.
    pub fn new(data: &str, start: usize) -> (s: Self)
        requires
            start as int <= data@.len(),
        ensures
            s.text() == data@,
            s.position() == start as int,
            s.wf(),
    {
        SignatureIterator { data: text_chars(data), pos: start }
    }

    /// Consume the enclosing call's arguments leftward: skip balanced groups
    /// and quoted literals, count top-level commas, and stop just left of
    /// the call's opening parenthesis. Returns the zero-based argument index
    /// of the cursor, or `None` when no open call encloses the position (the
    /// whole prefix is consumed then).
    #[verifier::loop_isolation(false)]
    pub fn eat_parameters(&mut self) -> (r: Option<usize>)
        requires
            old(self).wf(),
        ensures
            final(self).text() == old(self).text(),
            final(self).wf(),
            match scan_enclosing_call(old(self).text(), old(self).position()) {
                Some((args, open_at)) => r matches Some(n) && n as nat == args
                    && final(self).position() == open_at,
                None => r is None && final(self).position() == 0,
            },
    {
        let ghost text = self.data@;
        let ghost p0 = self.pos as int;
        let mut lit: Option<char> = None;
        let mut paren: usize = 0;
        let mut bracket: usize = 0;
        let mut args: usize = 0;
        while self.pos > 0
            invariant
                self.data@ == text,
                self.pos as int <= text.len(),
                paren as int <= p0 - self.pos as int,
                bracket as int <= p0 - self.pos as int,
                args as int <= p0 - self.pos as int,
                scan_enclosing_call(text, p0) == scan_call(
                    text,
                    self.pos as int,
                    lit,
                    paren as nat,
                    bracket as nat,
                    args as nat,
                ),
            decreases self.pos,
        {
            let c = self.data[self.pos - 1];
            self.pos = self.pos - 1;
            match lit {
                Some(d) => {
                    if c == d {
                        lit = None;
                    }
                },
                None => {
                    if c == '(' {
                        if paren == 0 {
                            return Some(args);
                        } else {
                            paren = paren - 1;
                        }
                    } else if c == ')' {
                        paren = paren + 1;
                    } else if c == '[' {
                        if bracket > 0 {
                            bracket = bracket - 1;
                        }
                    } else if c == ']' {
                        bracket = bracket + 1;
                    } else if c == '"' || c == '\'' {
                        lit = Some(c);
                    } else if c == ',' && paren == 0 && bracket == 0 {
                        args = args + 1;
                    }
                },
            }
        }
        None
    }

    /// Read the called identifier leftward from the current position,
    /// skipping whitespace first. `None` when the opening parenthesis
    /// follows no identifier; the scan then stops where the token search
    /// stopped.
    pub fn eat_identifier(self) -> (r: Option<String>)
        requires
            self.wf(),
        ensures
            match scan_ident_at(self.text(), self.position()) {
                Some(name) => r matches Some(s) && s@ == name,
                None => r is None,
            },
    {
        let q = scan_skip_spaces(&self.data, self.pos);
        let s = scan_word_start(&self.data, q);
        if s == q {
            None
        } else {
            let mut out: Vec<char> = Vec::new();
            let mut i = s;
            while i < q
                invariant
                    self.data@.len() >= q,
                    s <= i <= q,
                    out@ == self.data@.subrange(s as int, i as int),
                decreases q - i,
            {
                out.push(self.data[i]);
                proof {
                    assert(out@ =~= self.data@.subrange(s as int, i + 1 as int));
                }
                i = i + 1;
            }
            Some(string_from_chars(&out))
        }
    }
}

/// Offset of the coordinate `pos` in `document`; the coordinate-to-offset
/// conversion of [`Position::get_idx`] under the name the signature queries
/// use. `None` when the coordinate lies beyond the document.
pub fn get_pos_in_document(document: &str, pos: Position) -> (r: Option<usize>)
    ensures
        match r {
            Some(off) => offset_of_coord(document@, pos.line as int, pos.column as int) == Some(
                off as int,
            ),
            None => offset_of_coord(document@, pos.line as int, pos.column as int) is None,
        },
{
    pos.get_idx(document)
}

/// The name of the call enclosing the cursor coordinate and the zero-based
/// index of the argument slot holding it; `None` when the coordinate lies
/// beyond the document, no open call encloses it, a literal before it is
/// unterminated, or the opening parenthesis follows no identifier.
pub fn func_name_and_param(document: &str, position: Position) -> (r: Option<(String, usize)>)
    ensures
        match offset_of_coord(document@, position.line as int, position.column as int) {
            Some(off) => match signature_context_at(document@, off) {
                Some((name, args)) => r matches Some(t) && t.0@ == name && t.1 as nat == args,
                None => r is None,
            },
            None => r is None,
        },
{
    match get_pos_in_document(document, position) {
        None => None,
        Some(off) => {
            proof {
                assert(coord_matches(
                    document@,
                    off as int,
                    position.line as int,
                    position.column as int,
                ));
            }
            let mut iter = SignatureIterator::new(document, off);
            match iter.eat_parameters() {
                None => None,
                Some(args) => match iter.eat_identifier() {
                    None => None,
                    Some(name) => Some((name, args)),
                },
            }
        },
    }
}

/// The signature context at a cursor offset: which open call encloses the
/// character position `offset`, and which argument slot the cursor sits in.
pub fn signature_context(text: &str, offset: usize) -> (r: Option<SignatureContext>)
    requires
        offset as int <= text@.len(),
    ensures
        match signature_context_at(text@, offset as int) {
            Some((name, args)) => r matches Some(c) && c.identifier@ == name && c.argument_index
                as nat == args,
            None => r is None,
        },
{
    let mut iter = SignatureIterator::new(text, offset);
    match iter.eat_parameters() {
        None => None,
        Some(args) => match iter.eat_identifier() {
            None => None,
            Some(name) => Some(SignatureContext { identifier: name, argument_index: args }),
        },
    }
}

} // verus!
