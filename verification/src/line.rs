//! Scanned lines.  A line holds its tokens in a `smallvec::SmallVec` — the
//! shape the renderer consumes, with the first few tokens stored inline.
//! Verus cannot look inside that vector, so it sits in an opaque struct
//! whose contents are named by `line_tokens`, and the vector's operations
//! are trusted wrappers whose contracts speak over that name.

use vstd::prelude::*;

use crate::token::SyntaxType;
use crate::token::Token;
use crate::token::token_view;
use crate::token::tokens_repr_ok;

verus! {

/// One scanned line: the tokens of exactly one source line, left to right.
#[verifier::external_body]
pub struct SyntaxLine {
    items: smallvec::SmallVec<[Token; 5]>,
}

/// The full scan of a document, one entry per source line, indexed by
/// zero-based line number.
pub type SyntaxBlocks = Vec<SyntaxLine>;

/// The tokens a `SyntaxLine` holds, in order.
pub uninterp spec fn line_tokens(l: SyntaxLine) -> Seq<Token>;

impl SyntaxLine {
    /// Relies on `SmallVec::new`: the new vector holds no items.
    #[verifier::external_body]
    pub fn new() -> (r: SyntaxLine)
        ensures
            line_tokens(r) == Seq::<Token>::empty(),
    {
        SyntaxLine { items: smallvec::SmallVec::new() }
    }

    /// Relies on `SmallVec::push`: the item is appended after the existing
    /// items, which stay in place.
    #[verifier::external_body]
    pub fn push(&mut self, t: Token)
        ensures
            line_tokens(*final(self)) == line_tokens(*old(self)).push(t),
    {
        self.items.push(t);
    }

    /// Relies on `SmallVec::drain` over the full range and on `SmallVec`'s
    /// `FromIterator`: the vector is emptied and its items are handed out
    /// in their original order.
    #[verifier::external_body]
    pub fn take(&mut self) -> (r: SyntaxLine)
        ensures
            line_tokens(r) == line_tokens(*old(self)),
            line_tokens(*final(self)) == Seq::<Token>::empty(),
    {
        SyntaxLine { items: self.items.drain(0..).collect() }
    }

    /// Relies on `SmallVec::len`: the number of items held.
    #[verifier::external_body]
    pub fn len(&self) -> (r: usize)
        ensures
            r == line_tokens(*self).len(),
    {
        self.items.len()
    }

    /// Relies on `SmallVec`'s indexing: the item at position `i`.
    #[verifier::external_body]
    pub fn get(&self, i: usize) -> (r: &Token)
        requires
            i < line_tokens(*self).len(),
        ensures
            *r == line_tokens(*self)[i as int],
    {
        &self.items[i]
    }
}

/// The view of a line: each token's category and text.
pub open spec fn line_view(l: SyntaxLine) -> Seq<(SyntaxType, Seq<char>)> {
    line_tokens(l).map_values(|t: Token| token_view(t))
}

/// The view of a whole scan: the view of each of its lines.
pub open spec fn blocks_view(b: SyntaxBlocks) -> Seq<Seq<(SyntaxType, Seq<char>)>> {
    b@.map_values(|l: SyntaxLine| line_view(l))
}

/// Every token of the line takes the payload form the scanner gives it.
pub open spec fn line_repr_ok(l: SyntaxLine) -> bool {
    tokens_repr_ok(line_tokens(l))
}

/// Every token of every line takes the payload form the scanner gives it.
pub open spec fn blocks_repr_ok(b: SyntaxBlocks) -> bool {
    forall|i: int| 0 <= i < b@.len() ==> line_repr_ok(#[trigger] b@[i])
}

} // verus!
