//! The single-pass scanner.
//!
//! `parse` walks the document's characters once, left to right, carrying an
//! explicit [`ScanState`]: the open comment and its buffer, the open string
//! literal and its buffer, the pending word, and the property flag set by a
//! preceding `.`.  Its whole behaviour is pinned by the specification
//! functions in this module: `parse` produces exactly [`scan_spec`] of its
//! input.

use vstd::prelude::*;

use crate::chars::all_whitespace_chars;
use crate::chars::char_is_numeric;
use crate::chars::char_is_whitespace;
use crate::chars::chars_to_string;
use crate::chars::is_all_whitespace;
use crate::chars::is_punctuation_char;
use crate::chars::numeric_char;
use crate::chars::punctuation_char;
use crate::chars::whitespace_char;
use crate::line::SyntaxBlocks;
use crate::line::SyntaxLine;
use crate::line::blocks_repr_ok;
use crate::line::blocks_view;
use crate::line::line_repr_ok;
use crate::line::line_tokens;
use crate::line::line_view;
use crate::token::SyntaxSemantic;
use crate::token::SyntaxType;
use crate::token::TextType;
use crate::token::Token;
use crate::token::classify_word;
use crate::token::is_generic_keyword;
use crate::token::is_special_keyword;
use crate::token::lemma_tokens_repr_push;
use crate::token::token_repr_ok;
use crate::token::tokens_repr_ok;
use crate::chars::has_no_lowercase;
use crate::chars::trim_word;

verus! {

/// Which kind of comment, if any, the scanner is currently inside.
#[derive(Clone, Copy, PartialEq, Eq, Structural, Debug)]
pub enum CommentTracking {
    Inactive,
    OneLine,
    MultiLine,
}

/// The view of a token: its category and the exact text it covers.
pub type SpecToken = (SyntaxType, Seq<char>);

/// The mathematical state of the scanner between two characters.
#[verifier::ext_equal]
pub ghost struct SpecState {
    pub comment_mode: CommentTracking,
    pub comment_buf: Option<Seq<char>>,
    pub in_string: bool,
    pub string_buf: Option<Seq<char>>,
    pub pending: Option<Seq<char>>,
    pub last_semantic: SyntaxSemantic,
}

/// The scanner state threaded through one pass: constructed fresh per call,
/// discarded after.
pub struct ScanState {
    pub comment_mode: CommentTracking,
    pub comment_buf: Option<Vec<char>>,
    pub in_string: bool,
    pub string_buf: Option<Vec<char>>,
    pub pending: Option<Vec<char>>,
    pub last_semantic: SyntaxSemantic,
}

/// The view of an optional accumulator buffer.
pub open spec fn opt_chars_view(o: Option<Vec<char>>) -> Option<Seq<char>> {
    match o {
        Some(v) => Some(v@),
        None => None,
    }
}

impl View for ScanState {
    type V = SpecState;

    open spec fn view(&self) -> SpecState {
        SpecState {
            comment_mode: self.comment_mode,
            comment_buf: opt_chars_view(self.comment_buf),
            in_string: self.in_string,
            string_buf: opt_chars_view(self.string_buf),
            pending: opt_chars_view(self.pending),
            last_semantic: self.last_semantic,
        }
    }
}

/// The state the scan starts from: nothing open, nothing pending.
pub open spec fn init_state() -> SpecState {
    SpecState {
        comment_mode: CommentTracking::Inactive,
        comment_buf: None,
        in_string: false,
        string_buf: None,
        pending: None,
        last_semantic: SyntaxSemantic::Unknown,
    }
}

impl ScanState {
    /// A fresh scanner state.
    pub fn new() -> (r: ScanState)
        ensures
            r@ == init_state(),
    {
        let r = ScanState {
            comment_mode: CommentTracking::Inactive,
            comment_buf: None,
            in_string: false,
            string_buf: None,
            pending: None,
            last_semantic: SyntaxSemantic::Unknown,
        };
        proof {
            assert(r@ =~= init_state());
        }
        r
    }
}

/// Appending one character to an optional accumulator, creating it if absent.
pub open spec fn opt_append(o: Option<Seq<char>>, c: char) -> Seq<char> {
    match o {
        Some(s) => s.push(c),
        None => seq![c],
    }
}

/// Flushing the pending buffer through classification: a pending word that is
/// not pure white space becomes one classified token, and the property flag
/// is spent; a white-space run (or no buffer) is left untouched.
pub open spec fn spec_push_unknown(st: SpecState, line: Seq<SpecToken>) -> (SpecState, Seq<SpecToken>) {
    match st.pending {
        Some(w) => {
            if all_whitespace_chars(w) {
                (st, line)
            } else {
                (
                    SpecState { pending: None, last_semantic: SyntaxSemantic::Unknown, ..st },
                    line.push((classify_word(w, st.last_semantic), w)),
                )
            }
        },
        None => (st, line),
    }
}

/// Flushing a pure white-space pending buffer as its own `Unknown` token.
pub open spec fn spec_push_space(st: SpecState, line: Seq<SpecToken>) -> (SpecState, Seq<SpecToken>) {
    match st.pending {
        Some(w) => {
            if all_whitespace_chars(w) {
                (SpecState { pending: None, ..st }, line.push((SyntaxType::Unknown, w)))
            } else {
                (st, line)
            }
        },
        None => (st, line),
    }
}

/// One character's transition, before any line cut: the per-character
/// priority order over strings, comments, numerals, punctuation and words.
pub open spec fn spec_char_action(st: SpecState, line: Seq<SpecToken>, c: char) -> (SpecState, Seq<SpecToken>) {
    if st.in_string && c == '"' {
        // Closing quote: flush the pending word, then emit the whole literal.
        let r = spec_push_unknown(st, line);
        let text = opt_append(r.0.string_buf, '"');
        (
            SpecState { string_buf: None, in_string: false, ..r.0 },
            r.1.push((SyntaxType::String, text)),
        )
    } else if st.comment_mode == CommentTracking::Inactive && c == '"' {
        // Opening quote.
        (SpecState { string_buf: Some(seq!['"']), in_string: true, ..st }, line)
    } else if st.comment_mode != CommentTracking::Inactive {
        // Inside a comment: accumulate; `*/` closes a multi-line comment.
        let buf = opt_append(st.comment_buf, c);
        if st.comment_mode == CommentTracking::MultiLine && c == '/' && buf.len() >= 2
            && buf[buf.len() - 2] == '*' {
            (
                SpecState { comment_buf: None, comment_mode: CommentTracking::Inactive, ..st },
                line.push((SyntaxType::Comment, buf)),
            )
        } else {
            (SpecState { comment_buf: Some(buf), ..st }, line)
        }
    } else if st.in_string {
        // Inside a string literal: accumulate.
        (SpecState { string_buf: Some(opt_append(st.string_buf, c)), ..st }, line)
    } else if numeric_char(c) {
        // Each numeral is its own single-character token; the property
        // flag stays armed until the next word flush.
        let r = spec_push_unknown(st, line);
        (r.0, r.1.push((SyntaxType::Number, seq![c])))
    } else if punctuation_char(c) {
        // Fixed punctuation; a `.` arms the property flag for the next word.
        let r = spec_push_unknown(st, line);
        let st1 = if c == '.' {
            SpecState { last_semantic: SyntaxSemantic::PropertyAccess, ..r.0 }
        } else {
            r.0
        };
        (st1, r.1.push((SyntaxType::Punctuation, seq![c])))
    } else {
        // Letters, white space, and the comment-opening characters.
        if st.comment_mode == CommentTracking::Inactive && (c == '*' || c == '/')
            && st.pending == Some(seq!['/']) {
            // A pending `/` followed by `*` or `/` opens a comment and is
            // consumed into the comment buffer.
            (
                SpecState {
                    pending: None,
                    comment_buf: Some(seq!['/', c]),
                    comment_mode: if c == '*' {
                        CommentTracking::MultiLine
                    } else {
                        CommentTracking::OneLine
                    },
                    ..st
                },
                line,
            )
        } else {
            let r = if whitespace_char(c) {
                spec_push_unknown(st, line)
            } else {
                (st, line)
            };
            let st1 = SpecState { pending: Some(opt_append(r.0.pending, c)), ..r.0 };
            if whitespace_char(c) {
                spec_push_space(st1, r.1)
            } else {
                (st1, r.1)
            }
        }
    }
}

/// At a line cut, an open comment buffer is emitted on the line that just
/// ended, so that every line's tokens spell exactly that line's own text.
/// A one-line comment closes; a multi-line comment keeps only its mode, and
/// the text it accumulates on later lines is emitted with those lines.
pub open spec fn spec_flush_comment(st: SpecState, line: Seq<SpecToken>) -> (SpecState, Seq<SpecToken>) {
    if st.comment_mode != CommentTracking::Inactive {
        let l1 = match st.comment_buf {
            Some(cb) => line.push((SyntaxType::Comment, cb)),
            None => line,
        };
        let m1 = if st.comment_mode == CommentTracking::OneLine {
            CommentTracking::Inactive
        } else {
            st.comment_mode
        };
        (SpecState { comment_buf: None, comment_mode: m1, ..st }, l1)
    } else {
        (st, line)
    }
}

/// At a line cut, an open string buffer is emitted even if unterminated,
/// and the string is closed implicitly: the next line scans as plain text.
pub open spec fn spec_flush_string(st: SpecState, line: Seq<SpecToken>) -> (SpecState, Seq<SpecToken>) {
    match st.string_buf {
        Some(sb) => (
            SpecState { string_buf: None, in_string: false, ..st },
            line.push((SyntaxType::String, sb)),
        ),
        None => (SpecState { in_string: false, ..st }, line),
    }
}

/// The line cut at `'\n'` or at the last character: an open comment buffer
/// is emitted, the pending buffer is flushed, and an open string literal is
/// emitted and implicitly closed.
pub open spec fn spec_boundary(st: SpecState, line: Seq<SpecToken>) -> (SpecState, Seq<SpecToken>) {
    let r0 = spec_flush_comment(st, line);
    let r1 = spec_push_unknown(r0.0, r0.1);
    let r2 = spec_push_space(r1.0, r1.1);
    spec_flush_string(r2.0, r2.1)
}

/// One whole step: the character's transition, then — at `'\n'` or at the
/// last character — the line cut, yielding the completed line.
pub open spec fn spec_step(st: SpecState, line: Seq<SpecToken>, c: char, is_last: bool) -> (
    SpecState,
    Seq<SpecToken>,
    Option<Seq<SpecToken>>,
) {
    let a = spec_char_action(st, line, c);
    if c == '\n' || is_last {
        let b = spec_boundary(a.0, a.1);
        (b.0, Seq::empty(), Some(b.1))
    } else {
        (a.0, a.1, None)
    }
}

/// The lines produced from position `i` onward, starting from state `st`
/// with `line` accumulated on the current line.
pub open spec fn scan_from(st: SpecState, line: Seq<SpecToken>, s: Seq<char>, i: int) -> Seq<
    Seq<SpecToken>,
>
    decreases s.len() - i,
{
    if i < 0 || i >= s.len() {
        Seq::empty()
    } else {
        let r = spec_step(st, line, s[i], i == s.len() - 1);
        match r.2 {
            Some(l) => seq![l] + scan_from(r.0, r.1, s, i + 1),
            None => scan_from(r.0, r.1, s, i + 1),
        }
    }
}

/// The input with every carriage return removed.
pub open spec fn strip_cr(s: Seq<char>) -> Seq<char>
    decreases s.len(),
{
    if s.len() == 0 {
        Seq::empty()
    } else if s.last() == '\r' {
        strip_cr(s.drop_last())
    } else {
        strip_cr(s.drop_last()).push(s.last())
    }
}

/// The full scan of a document: the lines the scanner produces for `input`.
pub open spec fn scan_spec(input: Seq<char>) -> Seq<Seq<SpecToken>> {
    scan_from(init_state(), Seq::empty(), strip_cr(input), 0)
}

/// Appends `c` to an optional accumulator buffer, creating it if absent.
fn buf_append(buf: &mut Option<Vec<char>>, c: char)
    ensures
        opt_chars_view(*final(buf)) == Some(opt_append(opt_chars_view(*old(buf)), c)),
{
    let mut v: Vec<char> = match buf.take() {
        Some(v0) => v0,
        None => Vec::new(),
    };
    v.push(c);
    proof {
        assert(v@ =~= opt_append(opt_chars_view(*old(buf)), c));
    }
    *buf = Some(v);
}

/// Flushes the pending buffer through classification, as the original
/// priority rules demand before a string, numeral, punctuation or
/// white-space token.
pub(crate) fn push_unknown(st: &mut ScanState, line: &mut SyntaxLine)
    ensures
        final(st)@ == spec_push_unknown(old(st)@, line_view(*old(line))).0,
        line_view(*final(line)) == spec_push_unknown(old(st)@, line_view(*old(line))).1,
        tokens_repr_ok(line_tokens(*old(line))) ==> tokens_repr_ok(line_tokens(*final(line))),
{
    let flush = match &st.pending {
        Some(w) => !is_all_whitespace(w),
        None => false,
    };
    if flush {
        let w = st.pending.take().unwrap();
        let trimmed = trim_word(&w);
        let cat: SyntaxType = if is_generic_keyword(&trimmed) {
            SyntaxType::Keyword
        } else if is_special_keyword(&trimmed) || has_no_lowercase(&w) {
            SyntaxType::SpecialKeyword
        } else {
            SyntaxType::from(st.last_semantic)
        };
        proof {
            assert(cat == classify_word(w@, old(st)@.last_semantic));
        }
        st.last_semantic = SyntaxSemantic::Unknown;
        let tok = (cat, TextType::String(chars_to_string(w)));
        proof {
            if tokens_repr_ok(line_tokens(*line)) {
                assert(token_repr_ok(tok));
                lemma_tokens_repr_push(line_tokens(*line), tok);
            }
        }
        line.push(tok);
        proof {
            assert(final(st)@ =~= spec_push_unknown(old(st)@, line_view(*old(line))).0);
            assert(line_view(*final(line)) =~~= spec_push_unknown(old(st)@, line_view(*old(line))).1);
        }
    }
}

/// Flushes a pure white-space pending buffer as its own `Unknown` token.
pub(crate) fn push_space(st: &mut ScanState, line: &mut SyntaxLine)
    ensures
        final(st)@ == spec_push_space(old(st)@, line_view(*old(line))).0,
        line_view(*final(line)) == spec_push_space(old(st)@, line_view(*old(line))).1,
        tokens_repr_ok(line_tokens(*old(line))) ==> tokens_repr_ok(line_tokens(*final(line))),
{
    let emit = match &st.pending {
        Some(w) => is_all_whitespace(w),
        None => false,
    };
    if emit {
        let w = st.pending.take().unwrap();
        let tok = (SyntaxType::Unknown, TextType::String(chars_to_string(w)));
        proof {
            if tokens_repr_ok(line_tokens(*line)) {
                assert(token_repr_ok(tok));
                lemma_tokens_repr_push(line_tokens(*line), tok);
            }
        }
        line.push(tok);
        proof {
            assert(final(st)@ =~= spec_push_space(old(st)@, line_view(*old(line))).0);
            assert(line_view(*final(line)) =~~= spec_push_space(old(st)@, line_view(*old(line))).1);
        }
    }
}

/// Processes one character: the per-character transition, and the line cut
/// when the character is `'\n'` or the last of the document.
fn scan_step(
    st: &mut ScanState,
    line: &mut SyntaxLine,
    blocks: &mut SyntaxBlocks,
    c: char,
    is_last: bool,
)
    ensures
        ({
            let r = spec_step(old(st)@, line_view(*old(line)), c, is_last);
            &&& final(st)@ == r.0
            &&& line_view(*final(line)) == r.1
            &&& blocks_view(*final(blocks)) == (match r.2 {
                Some(l) => blocks_view(*old(blocks)).push(l),
                None => blocks_view(*old(blocks)),
            })
        }),
        tokens_repr_ok(line_tokens(*old(line))) ==> tokens_repr_ok(line_tokens(*final(line))),
        (tokens_repr_ok(line_tokens(*old(line))) && blocks_repr_ok(*old(blocks)))
            ==> blocks_repr_ok(*final(blocks)),
{
    let ghost st0 = st@;
    let ghost l0 = line_view(*line);
    if st.in_string && c == '"' {
        push_unknown(st, line);
        let mut sbuf: Vec<char> = match st.string_buf.take() {
            Some(v) => v,
            None => Vec::new(),
        };
        sbuf.push('"');
        proof {
            assert(sbuf@ =~= opt_append(spec_push_unknown(st0, l0).0.string_buf, '"'));
        }
        let tok = (SyntaxType::String, TextType::String(chars_to_string(sbuf)));
        proof {
            if tokens_repr_ok(line_tokens(*line)) {
                assert(token_repr_ok(tok));
                lemma_tokens_repr_push(line_tokens(*line), tok);
            }
        }
        line.push(tok);
        st.in_string = false;
        proof {
            assert(st@ =~= spec_char_action(st0, l0, c).0);
            assert(line_view(*line) =~~= spec_char_action(st0, l0, c).1);
        }
    } else if st.comment_mode == CommentTracking::Inactive && c == '"' {
        st.string_buf = Some(vec!['"']);
        st.in_string = true;
        proof {
            assert(st@ =~= spec_char_action(st0, l0, c).0);
        }
    } else if st.comment_mode != CommentTracking::Inactive {
        buf_append(&mut st.comment_buf, c);
        let ends = if st.comment_mode == CommentTracking::MultiLine && c == '/' {
            match &st.comment_buf {
                Some(b) => {
                    let blen = b.len();
                    blen >= 2 && b[blen - 2] == '*'
                },
                None => false,
            }
        } else {
            false
        };
        if ends {
            let cb = st.comment_buf.take().unwrap();
            let tok = (SyntaxType::Comment, TextType::String(chars_to_string(cb)));
            proof {
                if tokens_repr_ok(line_tokens(*line)) {
                    assert(token_repr_ok(tok));
                    lemma_tokens_repr_push(line_tokens(*line), tok);
                }
            }
            line.push(tok);
            st.comment_mode = CommentTracking::Inactive;
        }
        proof {
            assert(st@ =~= spec_char_action(st0, l0, c).0);
            assert(line_view(*line) =~~= spec_char_action(st0, l0, c).1);
        }
    } else if st.in_string {
        buf_append(&mut st.string_buf, c);
        proof {
            assert(st@ =~= spec_char_action(st0, l0, c).0);
        }
    } else if char_is_numeric(c) {
        push_unknown(st, line);
        let tok = (SyntaxType::Number, TextType::Char(c));
        proof {
            if tokens_repr_ok(line_tokens(*line)) {
                assert(token_repr_ok(tok));
                lemma_tokens_repr_push(line_tokens(*line), tok);
            }
        }
        line.push(tok);
        proof {
            assert(st@ =~= spec_char_action(st0, l0, c).0);
            assert(line_view(*line) =~~= spec_char_action(st0, l0, c).1);
        }
    } else if is_punctuation_char(c) {
        push_unknown(st, line);
        if c == '.' && st.last_semantic != SyntaxSemantic::PropertyAccess {
            st.last_semantic = SyntaxSemantic::PropertyAccess;
        }
        let tok = (SyntaxType::Punctuation, TextType::Char(c));
        proof {
            if tokens_repr_ok(line_tokens(*line)) {
                assert(token_repr_ok(tok));
                lemma_tokens_repr_push(line_tokens(*line), tok);
            }
        }
        line.push(tok);
        proof {
            assert(st@ =~= spec_char_action(st0, l0, c).0);
            assert(line_view(*line) =~~= spec_char_action(st0, l0, c).1);
        }
    } else {
        let open_comment = if st.comment_mode == CommentTracking::Inactive
            && (c == '*' || c == '/') {
            match &st.pending {
                Some(p) => p.len() == 1 && p[0] == '/',
                None => false,
            }
        } else {
            false
        };
        proof {
            if st0.pending == Some(seq!['/']) {
                assert(st0.pending.unwrap().len() == 1 && st0.pending.unwrap()[0] == '/');
            }
            match &st.pending {
                Some(p) => {
                    if p.len() == 1 && p[0] == '/' {
                        assert(p@ =~= seq!['/']);
                    }
                },
                None => {},
            }
        }
        if open_comment {
            let mut cb = st.pending.take().unwrap();
            cb.push(c);
            proof {
                assert(cb@ =~= seq!['/', c]);
            }
            st.comment_buf = Some(cb);
            st.comment_mode = if c == '*' {
                CommentTracking::MultiLine
            } else {
                CommentTracking::OneLine
            };
            proof {
                assert(st@ =~= spec_char_action(st0, l0, c).0);
            }
        } else {
            let ws = char_is_whitespace(c);
            if ws {
                push_unknown(st, line);
            }
            buf_append(&mut st.pending, c);
            if ws {
                push_space(st, line);
            }
            proof {
                assert(st@ =~= spec_char_action(st0, l0, c).0);
                assert(line_view(*line) =~~= spec_char_action(st0, l0, c).1);
            }
        }
    }
    proof {
        assert(st@ == spec_char_action(st0, l0, c).0);
        assert(line_view(*line) == spec_char_action(st0, l0, c).1);
    }
    if c == '\n' || is_last {
        let ghost st1 = st@;
        let ghost l1 = line_view(*line);
        if st.comment_mode != CommentTracking::Inactive {
            if let Some(cb) = st.comment_buf.take() {
                let tok = (SyntaxType::Comment, TextType::String(chars_to_string(cb)));
                proof {
                    if tokens_repr_ok(line_tokens(*line)) {
                        assert(token_repr_ok(tok));
                        lemma_tokens_repr_push(line_tokens(*line), tok);
                    }
                }
                line.push(tok);
            }
            if st.comment_mode == CommentTracking::OneLine {
                st.comment_mode = CommentTracking::Inactive;
            }
        }
        proof {
            assert(st@ =~= spec_flush_comment(st1, l1).0);
            assert(line_view(*line) =~~= spec_flush_comment(st1, l1).1);
        }
        push_unknown(st, line);
        push_space(st, line);
        let ghost st3 = st@;
        let ghost l3 = line_view(*line);
        if let Some(sb) = st.string_buf.take() {
            let tok = (SyntaxType::String, TextType::String(chars_to_string(sb)));
            proof {
                if tokens_repr_ok(line_tokens(*line)) {
                    assert(token_repr_ok(tok));
                    lemma_tokens_repr_push(line_tokens(*line), tok);
                }
            }
            line.push(tok);
        }
        st.in_string = false;
        proof {
            assert(st@ =~= spec_flush_string(st3, l3).0);
            assert(line_view(*line) =~~= spec_flush_string(st3, l3).1);
            assert(st@ =~= spec_boundary(st1, l1).0);
            assert(line_view(*line) =~~= spec_boundary(st1, l1).1);
        }
        let done = line.take();
        blocks.push(done);
        proof {
            assert(line_view(*line) =~= Seq::<SpecToken>::empty());
            assert(blocks_view(*blocks) =~~= blocks_view(*old(blocks)).push(spec_boundary(st1, l1).1));
            if tokens_repr_ok(line_tokens(*old(line))) && blocks_repr_ok(*old(blocks)) {
                assert(line_repr_ok(done));
                assert forall|i: int| 0 <= i < blocks@.len() implies line_repr_ok(
                    #[trigger] blocks@[i],
                ) by {
                    if i < old(blocks)@.len() {
                        assert(blocks@[i] == old(blocks)@[i]);
                    } else {
                        assert(blocks@[i] == done);
                    }
                }
                assert(blocks_repr_ok(*blocks));
            }
        }
    }
}

/// Removes every carriage return from the input.
fn remove_carriage_returns(text: &Vec<char>) -> (r: Vec<char>)
    ensures
        r@ == strip_cr(text@),
{
    let mut out: Vec<char> = Vec::new();
    let n = text.len();
    proof {
        assert(text@.subrange(0, 0) =~= Seq::<char>::empty());
    }
    let mut i: usize = 0;
    while i < n
        invariant
            i <= n,
            n == text@.len(),
            out@ == strip_cr(text@.subrange(0, i as int)),
        decreases n - i,
    {
        let c = text[i];
        proof {
            assert(text@.subrange(0, i + 1).drop_last() =~= text@.subrange(0, i as int));
            assert(text@.subrange(0, i + 1).last() == text@[i as int]);
        }
        if c != '\r' {
            out.push(c);
        }
        i += 1;
    }
    proof {
        assert(text@.subrange(0, n as int) =~= text@);
    }
    out
}

/// Scans the whole document: clears `syntax_blocks` and fills it with one
/// token list per source line, exactly as [`scan_spec`] describes.  The
/// scanner is total: it never fails, whatever the character sequence.
pub fn parse(text: &Vec<char>, syntax_blocks: &mut SyntaxBlocks)
    ensures
        blocks_view(*final(syntax_blocks)) == scan_spec(text@),
        blocks_repr_ok(*final(syntax_blocks)),
{
    syntax_blocks.clear();
    let stripped = remove_carriage_returns(text);
    let mut st = ScanState::new();
    let mut line = SyntaxLine::new();
    let n = stripped.len();
    proof {
        assert(blocks_view(*syntax_blocks) =~= Seq::<Seq<SpecToken>>::empty());
        assert(line_view(line) =~= Seq::<SpecToken>::empty());
        assert(Seq::<Seq<SpecToken>>::empty() + scan_from(st@, line_view(line), stripped@, 0)
            =~= scan_spec(text@));
    }
    let mut i: usize = 0;
    while i < n
        invariant
            i <= n,
            n == stripped@.len(),
            stripped@ == strip_cr(text@),
            blocks_view(*syntax_blocks) + scan_from(st@, line_view(line), stripped@, i as int)
                == scan_spec(text@),
            tokens_repr_ok(line_tokens(line)),
            blocks_repr_ok(*syntax_blocks),
        decreases n - i,
    {
        let c = stripped[i];
        let is_last = i + 1 == n;
        let ghost pre_blocks = blocks_view(*syntax_blocks);
        let ghost pre_st = st@;
        let ghost pre_line = line_view(line);
        scan_step(&mut st, &mut line, syntax_blocks, c, is_last);
        proof {
            let r = spec_step(pre_st, pre_line, stripped@[i as int], is_last);
            match r.2 {
                Some(l) => {
                    assert(pre_blocks + (seq![l] + scan_from(r.0, r.1, stripped@, i + 1))
                        =~= (pre_blocks.push(l) + scan_from(r.0, r.1, stripped@, i + 1)));
                },
                None => {},
            }
        }
        i += 1;
    }
    proof {
        assert(blocks_view(*syntax_blocks) + Seq::<Seq<SpecToken>>::empty()
            =~= blocks_view(*syntax_blocks));
    }
}

} // verus!
