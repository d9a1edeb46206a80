//! The scanner's laws, proved over the model in [`crate::scanner`]:
//! concatenating every token's text reproduces the input with carriage
//! returns removed; the number of lines equals the number of
//! newline-delimited segments; equal inputs give equal scans; and an
//! all-caps word always classifies as a special keyword.

use vstd::prelude::*;

use crate::chars::all_whitespace_chars;
use crate::chars::no_lowercase;
use crate::chars::trim_end;
use crate::chars::trim_start;
use crate::chars::trim_ws;
use crate::chars::whitespace_char;
use crate::line::SyntaxBlocks;
use crate::line::blocks_repr_ok;
use crate::line::blocks_view;
use crate::line::line_repr_ok;
use crate::line::line_tokens;
use crate::line::line_view;
use crate::scanner::CommentTracking;
use crate::scanner::SpecState;
use crate::scanner::SpecToken;
use crate::scanner::init_state;
use crate::scanner::opt_append;
use crate::scanner::scan_from;
use crate::scanner::scan_spec;
use crate::scanner::spec_boundary;
use crate::scanner::spec_char_action;
use crate::scanner::spec_flush_comment;
use crate::scanner::spec_flush_string;
use crate::scanner::spec_push_space;
use crate::scanner::spec_push_unknown;
use crate::scanner::spec_step;
use crate::scanner::strip_cr;
use crate::token::SyntaxSemantic;
use crate::token::SyntaxType;
use crate::token::TextType;
use crate::token::Token;
use crate::token::classify_word;
use crate::token::generic_keyword;
use crate::token::text_of;
use crate::token::token_repr_ok;
use crate::token::token_view;

verus! {

/// The text a line's tokens spell, concatenated left to right.
pub open spec fn line_text(l: Seq<SpecToken>) -> Seq<char>
    decreases l.len(),
{
    if l.len() == 0 {
        Seq::empty()
    } else {
        line_text(l.drop_last()) + l.last().1
    }
}

/// The text a whole scan spells, line by line.
pub open spec fn lines_text(ls: Seq<Seq<SpecToken>>) -> Seq<char>
    decreases ls.len(),
{
    if ls.len() == 0 {
        Seq::empty()
    } else {
        line_text(ls.first()) + lines_text(ls.drop_first())
    }
}

/// The text an optional accumulator holds.
pub open spec fn opt_text(o: Option<Seq<char>>) -> Seq<char> {
    match o {
        Some(s) => s,
        None => Seq::empty(),
    }
}

/// The text still sitting in the scanner's accumulators, in the order the
/// line cut flushes it: comment buffer, pending word, string buffer.
pub open spec fn state_text(st: SpecState) -> Seq<char> {
    opt_text(st.comment_buf) + opt_text(st.pending) + opt_text(st.string_buf)
}

/// A pending buffer is either absent or a non-empty run without white space.
pub open spec fn word_buf_ok(o: Option<Seq<char>>) -> bool {
    match o {
        Some(w) => w.len() > 0 && (forall|i: int|
            0 <= i < w.len() ==> !whitespace_char(#[trigger] w[i])),
        None => true,
    }
}

/// What holds of the scanner state between two characters: the open-comment,
/// open-string and pending buffers exclude one another as the transition
/// rules demand.
pub open spec fn scan_inv(st: SpecState) -> bool {
    &&& st.comment_mode != CommentTracking::Inactive ==> (st.pending is None
        && st.string_buf is None && !st.in_string)
    &&& st.string_buf is Some ==> st.in_string
    &&& st.in_string ==> st.comment_mode == CommentTracking::Inactive
    &&& st.comment_buf is Some ==> st.comment_mode != CommentTracking::Inactive
    &&& word_buf_ok(st.pending)
}

proof fn lemma_line_text_push(l: Seq<SpecToken>, t: SpecToken)
    ensures
        line_text(l.push(t)) == line_text(l) + t.1,
{
    assert((l.push(t)).drop_last() =~= l);
    assert((l.push(t)).last() == t);
}

proof fn lemma_lines_text_cons(l: Seq<SpecToken>, ls: Seq<Seq<SpecToken>>)
    ensures
        lines_text(seq![l] + ls) == line_text(l) + lines_text(ls),
{
    assert((seq![l] + ls).first() == l);
    assert((seq![l] + ls).drop_first() =~= ls);
    assert((seq![l] + ls).len() == 1 + ls.len());
}

proof fn lemma_opt_append_text(o: Option<Seq<char>>, c: char)
    ensures
        opt_append(o, c) == opt_text(o) + seq![c],
{
    match o {
        Some(s) => {
            assert(s.push(c) =~= s + seq![c]);
        },
        None => {
            assert(seq![c] =~= Seq::<char>::empty() + seq![c]);
        },
    }
}

/// Flushing the pending word moves text from the accumulators into the line
/// and loses none of it.
proof fn lemma_push_unknown_conserves(st: SpecState, line: Seq<SpecToken>)
    requires
        st.comment_buf is None,
    ensures
        ({
            let r = spec_push_unknown(st, line);
            &&& line_text(r.1) + state_text(r.0) == line_text(line) + state_text(st)
            &&& r.0.comment_buf is None
            &&& r.0.comment_mode == st.comment_mode
            &&& r.0.in_string == st.in_string
            &&& r.0.string_buf == st.string_buf
            &&& (word_buf_ok(st.pending) ==> r.0.pending is None)
        }),
{
    let r = spec_push_unknown(st, line);
    match st.pending {
        Some(w) => {
            if word_buf_ok(st.pending) {
                assert(!whitespace_char(w[0]));
                assert(!all_whitespace_chars(w));
            }
            if !all_whitespace_chars(w) {
                lemma_line_text_push(line, (classify_word(w, st.last_semantic), w));
                assert(line_text(r.1) + state_text(r.0) =~= line_text(line) + state_text(st));
            } else {
                assert(line_text(r.1) + state_text(r.0) =~= line_text(line) + state_text(st));
            }
        },
        None => {
            assert(line_text(r.1) + state_text(r.0) =~= line_text(line) + state_text(st));
        },
    }
}

/// Flushing a white-space run moves text from the accumulators into the
/// line and loses none of it.
proof fn lemma_push_space_conserves(st: SpecState, line: Seq<SpecToken>)
    requires
        st.comment_buf is None,
    ensures
        ({
            let r = spec_push_space(st, line);
            &&& line_text(r.1) + state_text(r.0) == line_text(line) + state_text(st)
            &&& r.0.comment_buf is None
            &&& r.0.comment_mode == st.comment_mode
            &&& r.0.in_string == st.in_string
            &&& r.0.string_buf == st.string_buf
        }),
{
    let r = spec_push_space(st, line);
    match st.pending {
        Some(w) => {
            if all_whitespace_chars(w) {
                lemma_line_text_push(line, (SyntaxType::Unknown, w));
                assert(line_text(r.1) + state_text(r.0) =~= line_text(line) + state_text(st));
            } else {
                assert(line_text(r.1) + state_text(r.0) =~= line_text(line) + state_text(st));
            }
        },
        None => {
            assert(line_text(r.1) + state_text(r.0) =~= line_text(line) + state_text(st));
        },
    }
}

/// One character's transition consumes exactly that character: the text in
/// the line and the accumulators grows by `c`, and the state invariant is
/// kept.
proof fn lemma_char_action_conserves(st: SpecState, line: Seq<SpecToken>, c: char)
    requires
        scan_inv(st),
    ensures
        ({
            let r = spec_char_action(st, line, c);
            &&& scan_inv(r.0)
            &&& line_text(r.1) + state_text(r.0) == line_text(line) + state_text(st) + seq![c]
        }),
{
    let r = spec_char_action(st, line, c);
    if st.in_string && c == '"' {
        lemma_push_unknown_conserves(st, line);
        let r1 = spec_push_unknown(st, line);
        let text = opt_append(r1.0.string_buf, '"');
        lemma_opt_append_text(r1.0.string_buf, '"');
        lemma_line_text_push(r1.1, (SyntaxType::String, text));
        assert(line_text(r.1) + state_text(r.0) =~= line_text(line) + state_text(st) + seq![c]);
    } else if st.comment_mode == CommentTracking::Inactive && c == '"' {
        assert(seq!['"'] =~= Seq::<char>::empty() + seq!['"']);
        assert(line_text(r.1) + state_text(r.0) =~= line_text(line) + state_text(st) + seq![c]);
    } else if st.comment_mode != CommentTracking::Inactive {
        let buf = opt_append(st.comment_buf, c);
        lemma_opt_append_text(st.comment_buf, c);
        if st.comment_mode == CommentTracking::MultiLine && c == '/' && buf.len() >= 2
            && buf[buf.len() - 2] == '*' {
            lemma_line_text_push(line, (SyntaxType::Comment, buf));
        }
        assert(line_text(r.1) + state_text(r.0) =~= line_text(line) + state_text(st) + seq![c]);
    } else if st.in_string {
        lemma_opt_append_text(st.string_buf, c);
        assert(line_text(r.1) + state_text(r.0) =~= line_text(line) + state_text(st) + seq![c]);
    } else if crate::chars::numeric_char(c) {
        lemma_push_unknown_conserves(st, line);
        let r1 = spec_push_unknown(st, line);
        lemma_line_text_push(r1.1, (SyntaxType::Number, seq![c]));
        assert(line_text(r.1) + state_text(r.0) =~= line_text(line) + state_text(st) + seq![c]);
    } else if crate::chars::punctuation_char(c) {
        lemma_push_unknown_conserves(st, line);
        let r1 = spec_push_unknown(st, line);
        lemma_line_text_push(r1.1, (SyntaxType::Punctuation, seq![c]));
        assert(line_text(r.1) + state_text(r.0) =~= line_text(line) + state_text(st) + seq![c]);
    } else {
        if st.comment_mode == CommentTracking::Inactive && (c == '*' || c == '/')
            && st.pending == Some(seq!['/']) {
            assert(seq!['/', c] =~= seq!['/'] + seq![c]);
            assert(line_text(r.1) + state_text(r.0) =~= line_text(line) + state_text(st) + seq![c]);
        } else {
            lemma_conserves_word_path(st, line, c);
        }
    }
}

/// The word path of the transition — flush on white space, append, flush a
/// white-space run — consumes exactly `c`.
proof fn lemma_conserves_word_path(st: SpecState, line: Seq<SpecToken>, c: char)
    requires
        scan_inv(st),
        !(st.in_string && c == '"'),
        !(st.comment_mode == CommentTracking::Inactive && c == '"'),
        st.comment_mode == CommentTracking::Inactive,
        !st.in_string,
        !crate::chars::numeric_char(c),
        !crate::chars::punctuation_char(c),
        !(st.comment_mode == CommentTracking::Inactive && (c == '*' || c == '/')
            && st.pending == Some(seq!['/'])),
    ensures
        ({
            let r = spec_char_action(st, line, c);
            &&& scan_inv(r.0)
            &&& line_text(r.1) + state_text(r.0) == line_text(line) + state_text(st) + seq![c]
        }),
{
    let r = spec_char_action(st, line, c);
    if whitespace_char(c) {
        lemma_push_unknown_conserves(st, line);
        let r1 = spec_push_unknown(st, line);
        let st2 = SpecState { pending: Some(opt_append(r1.0.pending, c)), ..r1.0 };
        lemma_opt_append_text(r1.0.pending, c);
        lemma_push_space_conserves(st2, r1.1);
        assert(line_text(r.1) + state_text(r.0) =~= line_text(line) + state_text(st) + seq![c]);
    } else {
        let st2 = SpecState { pending: Some(opt_append(st.pending, c)), ..st };
        lemma_opt_append_text(st.pending, c);
        assert(line_text(r.1) + state_text(r.0) =~= line_text(line) + state_text(st) + seq![c]);
        match st.pending {
            Some(w) => {
                assert(word_buf_ok(r.0.pending));
            },
            None => {
                assert(word_buf_ok(r.0.pending));
            },
        }
    }
}

/// The line cut empties every accumulator into the completed line and loses
/// no text.
proof fn lemma_boundary_conserves(st: SpecState, line: Seq<SpecToken>)
    requires
        scan_inv(st),
    ensures
        ({
            let r = spec_boundary(st, line);
            &&& scan_inv(r.0)
            &&& state_text(r.0) == Seq::<char>::empty()
            &&& line_text(r.1) == line_text(line) + state_text(st)
        }),
{
    let r0 = spec_flush_comment(st, line);
    if st.comment_mode != CommentTracking::Inactive {
        match st.comment_buf {
            Some(cb) => {
                lemma_line_text_push(line, (SyntaxType::Comment, cb));
            },
            None => {},
        }
    }
    assert(line_text(r0.1) + state_text(r0.0) =~= line_text(line) + state_text(st));
    assert(r0.0.comment_buf is None);
    lemma_push_unknown_conserves(r0.0, r0.1);
    let r1 = spec_push_unknown(r0.0, r0.1);
    lemma_push_space_conserves(r1.0, r1.1);
    let r2 = spec_push_space(r1.0, r1.1);
    let r = spec_flush_string(r2.0, r2.1);
    match r2.0.string_buf {
        Some(sb) => {
            lemma_line_text_push(r2.1, (SyntaxType::String, sb));
        },
        None => {},
    }
    assert(r2.0.pending is None);
    assert(state_text(r.0) =~= Seq::<char>::empty());
    assert(line_text(r.1) =~= line_text(line) + state_text(st));
}

/// From any position, the lines still to come spell the line so far, the
/// accumulators, and the rest of the input — nothing more, nothing less.
proof fn lemma_scan_from_lossless(st: SpecState, line: Seq<SpecToken>, s: Seq<char>, i: int)
    requires
        0 <= i <= s.len(),
        scan_inv(st),
    ensures
        lines_text(scan_from(st, line, s, i)) == if i < s.len() {
            line_text(line) + state_text(st) + s.subrange(i, s.len() as int)
        } else {
            Seq::<char>::empty()
        },
    decreases s.len() - i,
{
    if i < s.len() {
        let c = s[i];
        let r = spec_step(st, line, c, i == s.len() - 1);
        let a = spec_char_action(st, line, c);
        lemma_char_action_conserves(st, line, c);
        assert(s.subrange(i, s.len() as int) =~= seq![c] + s.subrange(i + 1, s.len() as int));
        if c == '\n' || i == s.len() - 1 {
            let b = spec_boundary(a.0, a.1);
            lemma_boundary_conserves(a.0, a.1);
            lemma_scan_from_lossless(b.0, Seq::empty(), s, i + 1);
            lemma_lines_text_cons(b.1, scan_from(b.0, Seq::empty(), s, i + 1));
            assert(lines_text(scan_from(st, line, s, i)) =~= line_text(line) + state_text(st)
                + s.subrange(i, s.len() as int));
        } else {
            lemma_scan_from_lossless(a.0, a.1, s, i + 1);
            assert(lines_text(scan_from(st, line, s, i)) =~= line_text(line) + state_text(st)
                + s.subrange(i, s.len() as int));
        }
    }
}

/// Concatenating the text of every token, across every line in order,
/// reproduces the input with every carriage return removed.
pub proof fn lemma_scan_lossless(input: Seq<char>)
    ensures
        lines_text(scan_spec(input)) == strip_cr(input),
{
    let s = strip_cr(input);
    lemma_scan_from_lossless(init_state(), Seq::empty(), s, 0);
    if s.len() > 0 {
        assert(s.subrange(0, s.len() as int) =~= s);
        assert(line_text(Seq::empty()) + state_text(init_state()) + s =~= s);
    }
}

/// An accumulator that is present holds at least one character.
pub open spec fn opt_nonempty(o: Option<Seq<char>>) -> bool {
    match o {
        Some(b) => b.len() > 0,
        None => true,
    }
}

/// The comment and string accumulators, when present, are never empty.
pub open spec fn bufs_nonempty(st: SpecState) -> bool {
    opt_nonempty(st.comment_buf) && opt_nonempty(st.string_buf)
}

/// A well-shaped token: it covers at least one character; a Number token
/// is one single numeral, and a Punctuation token one single character of
/// the fixed punctuation set.
pub open spec fn spec_token_wf(t: SpecToken) -> bool {
    &&& t.1.len() > 0
    &&& (t.0 == SyntaxType::Number ==> t.1.len() == 1 && crate::chars::numeric_char(t.1[0]))
    &&& (t.0 == SyntaxType::Punctuation ==> t.1.len() == 1 && crate::chars::punctuation_char(
        t.1[0],
    ))
}

/// Every token of the line is well shaped.
pub open spec fn line_tokens_wf(l: Seq<SpecToken>) -> bool {
    forall|j: int| 0 <= j < l.len() ==> spec_token_wf(#[trigger] l[j])
}

proof fn lemma_push_unknown_wf(st: SpecState, line: Seq<SpecToken>)
    requires
        word_buf_ok(st.pending),
        line_tokens_wf(line),
    ensures
        line_tokens_wf(spec_push_unknown(st, line).1),
{
    let r = spec_push_unknown(st, line);
    match st.pending {
        Some(w) => {
            if !all_whitespace_chars(w) {
                assert forall|j: int| 0 <= j < r.1.len() implies spec_token_wf(
                    #[trigger] r.1[j],
                ) by {
                    if j < line.len() {
                        assert(r.1[j] == line[j]);
                    } else {
                        assert(r.1[j] == (classify_word(w, st.last_semantic), w));
                        assert(r.1[j].0 != SyntaxType::Number && r.1[j].0
                            != SyntaxType::Punctuation);
                    }
                }
            }
        },
        None => {},
    }
}

/// One character's transition only produces well-shaped tokens, and keeps
/// the accumulators non-empty.
proof fn lemma_char_action_wf(st: SpecState, line: Seq<SpecToken>, c: char)
    requires
        scan_inv(st),
        bufs_nonempty(st),
        line_tokens_wf(line),
    ensures
        ({
            let r = spec_char_action(st, line, c);
            &&& bufs_nonempty(r.0)
            &&& line_tokens_wf(r.1)
        }),
{
    let r = spec_char_action(st, line, c);
    if st.in_string && c == '"' {
        lemma_push_unknown_wf(st, line);
        let r1 = spec_push_unknown(st, line);
        let text = opt_append(r1.0.string_buf, '"');
        assert(text.len() > 0);
        assert forall|j: int| 0 <= j < r.1.len() implies spec_token_wf(#[trigger] r.1[j]) by {
            if j < r1.1.len() {
                assert(r.1[j] == r1.1[j]);
            } else {
                assert(r.1[j] == (SyntaxType::String, text));
            }
        }
    } else if st.comment_mode == CommentTracking::Inactive && c == '"' {
    } else if st.comment_mode != CommentTracking::Inactive {
        let buf = opt_append(st.comment_buf, c);
        assert(buf.len() > 0);
        if st.comment_mode == CommentTracking::MultiLine && c == '/' && buf.len() >= 2
            && buf[buf.len() - 2] == '*' {
            assert forall|j: int| 0 <= j < r.1.len() implies spec_token_wf(#[trigger] r.1[j]) by {
                if j < line.len() {
                    assert(r.1[j] == line[j]);
                } else {
                    assert(r.1[j] == (SyntaxType::Comment, buf));
                }
            }
        }
    } else if st.in_string {
        assert(opt_append(st.string_buf, c).len() > 0);
    } else if crate::chars::numeric_char(c) {
        lemma_push_unknown_wf(st, line);
        let r1 = spec_push_unknown(st, line);
        assert forall|j: int| 0 <= j < r.1.len() implies spec_token_wf(#[trigger] r.1[j]) by {
            if j < r1.1.len() {
                assert(r.1[j] == r1.1[j]);
            } else {
                assert(r.1[j] == (SyntaxType::Number, seq![c]));
                assert(seq![c].len() == 1 && seq![c][0] == c);
            }
        }
    } else if crate::chars::punctuation_char(c) {
        lemma_push_unknown_wf(st, line);
        let r1 = spec_push_unknown(st, line);
        assert forall|j: int| 0 <= j < r.1.len() implies spec_token_wf(#[trigger] r.1[j]) by {
            if j < r1.1.len() {
                assert(r.1[j] == r1.1[j]);
            } else {
                assert(r.1[j] == (SyntaxType::Punctuation, seq![c]));
                assert(seq![c].len() == 1 && seq![c][0] == c);
            }
        }
    } else {
        if st.comment_mode == CommentTracking::Inactive && (c == '*' || c == '/')
            && st.pending == Some(seq!['/']) {
        } else {
            let r1 = if whitespace_char(c) {
                spec_push_unknown(st, line)
            } else {
                (st, line)
            };
            if whitespace_char(c) {
                lemma_push_unknown_wf(st, line);
            }
            let st2 = SpecState { pending: Some(opt_append(r1.0.pending, c)), ..r1.0 };
            let w2 = opt_append(r1.0.pending, c);
            assert(w2.len() > 0);
            if whitespace_char(c) {
                let r2 = spec_push_space(st2, r1.1);
                if all_whitespace_chars(w2) {
                    assert forall|j: int| 0 <= j < r2.1.len() implies spec_token_wf(
                        #[trigger] r2.1[j],
                    ) by {
                        if j < r1.1.len() {
                            assert(r2.1[j] == r1.1[j]);
                        } else {
                            assert(r2.1[j] == (SyntaxType::Unknown, w2));
                        }
                    }
                }
            }
        }
    }
}

/// The line cut only produces well-shaped tokens and leaves no
/// accumulator behind.
proof fn lemma_boundary_wf(st: SpecState, line: Seq<SpecToken>)
    requires
        scan_inv(st),
        bufs_nonempty(st),
        line_tokens_wf(line),
    ensures
        ({
            let r = spec_boundary(st, line);
            &&& bufs_nonempty(r.0)
            &&& line_tokens_wf(r.1)
        }),
{
    let r0 = spec_flush_comment(st, line);
    if st.comment_mode != CommentTracking::Inactive {
        match st.comment_buf {
            Some(cb) => {
                assert forall|j: int| 0 <= j < r0.1.len() implies spec_token_wf(
                    #[trigger] r0.1[j],
                ) by {
                    if j < line.len() {
                        assert(r0.1[j] == line[j]);
                    } else {
                        assert(r0.1[j] == (SyntaxType::Comment, cb));
                    }
                }
            },
            None => {},
        }
    }
    assert(r0.0.comment_buf is None);
    lemma_push_unknown_conserves(r0.0, r0.1);
    lemma_push_unknown_wf(r0.0, r0.1);
    let r1 = spec_push_unknown(r0.0, r0.1);
    assert(r1.0.pending is None);
    let r2 = spec_push_space(r1.0, r1.1);
    let r = spec_flush_string(r2.0, r2.1);
    match r2.0.string_buf {
        Some(sb) => {
            assert(sb.len() > 0);
            assert forall|j: int| 0 <= j < r.1.len() implies spec_token_wf(#[trigger] r.1[j]) by {
                if j < r2.1.len() {
                    assert(r.1[j] == r2.1[j]);
                } else {
                    assert(r.1[j] == (SyntaxType::String, sb));
                }
            }
        },
        None => {},
    }
}

proof fn lemma_scan_from_wf(st: SpecState, line: Seq<SpecToken>, s: Seq<char>, i: int)
    requires
        0 <= i <= s.len(),
        scan_inv(st),
        bufs_nonempty(st),
        line_tokens_wf(line),
    ensures
        forall|k: int|
            0 <= k < scan_from(st, line, s, i).len() ==> line_tokens_wf(
                #[trigger] scan_from(st, line, s, i)[k],
            ),
    decreases s.len() - i,
{
    if i < s.len() {
        let c = s[i];
        let a = spec_char_action(st, line, c);
        lemma_char_action_conserves(st, line, c);
        lemma_char_action_wf(st, line, c);
        if c == '\n' || i == s.len() - 1 {
            let b = spec_boundary(a.0, a.1);
            lemma_boundary_conserves(a.0, a.1);
            lemma_boundary_wf(a.0, a.1);
            lemma_scan_from_wf(b.0, Seq::empty(), s, i + 1);
            let rest = scan_from(b.0, Seq::empty(), s, i + 1);
            assert forall|k: int| 0 <= k < scan_from(st, line, s, i).len() implies line_tokens_wf(
                #[trigger] scan_from(st, line, s, i)[k],
            ) by {
                if k == 0 {
                    assert(scan_from(st, line, s, i)[k] == b.1);
                } else {
                    assert(scan_from(st, line, s, i)[k] == rest[k - 1]);
                }
            }
        } else {
            lemma_scan_from_wf(a.0, a.1, s, i + 1);
            assert(scan_from(st, line, s, i) == scan_from(a.0, a.1, s, i + 1));
            assert forall|k: int| 0 <= k < scan_from(st, line, s, i).len() implies line_tokens_wf(
                #[trigger] scan_from(st, line, s, i)[k],
            ) by {
                assert(scan_from(st, line, s, i)[k] == scan_from(a.0, a.1, s, i + 1)[k]);
            }
        }
    }
}

/// Every token the scan produces is well shaped: its text covers at least
/// one character, a Number token is one single numeral, and a Punctuation
/// token one single character of the fixed punctuation set.
pub proof fn lemma_scan_token_forms(input: Seq<char>)
    ensures
        forall|i: int|
            0 <= i < scan_spec(input).len() ==> line_tokens_wf(#[trigger] scan_spec(input)[i]),
{
    lemma_scan_from_wf(init_state(), Seq::empty(), strip_cr(input), 0);
}

/// The newline-delimited segments of `s` from position `i` on, each
/// newline kept with its segment; `cur` is the text of the segment begun
/// so far.
pub open spec fn split_from(cur: Seq<char>, s: Seq<char>, i: int) -> Seq<Seq<char>>
    decreases s.len() - i,
{
    if i < 0 || i >= s.len() {
        Seq::empty()
    } else {
        let cur1 = cur.push(s[i]);
        if s[i] == '\n' || i == s.len() - 1 {
            seq![cur1] + split_from(Seq::empty(), s, i + 1)
        } else {
            split_from(cur1, s, i + 1)
        }
    }
}

/// The newline-delimited segments of `s`, a trailing partial segment
/// included, each newline kept with its segment.
pub open spec fn split_lines(s: Seq<char>) -> Seq<Seq<char>> {
    split_from(Seq::empty(), s, 0)
}

/// The text each line spells, line by line.
pub open spec fn lines_texts(ls: Seq<Seq<SpecToken>>) -> Seq<Seq<char>> {
    Seq::new(ls.len(), |j: int| line_text(ls[j]))
}

proof fn lemma_scan_from_per_line(st: SpecState, line: Seq<SpecToken>, s: Seq<char>, i: int)
    requires
        0 <= i <= s.len(),
        scan_inv(st),
    ensures
        lines_texts(scan_from(st, line, s, i)) == split_from(
            line_text(line) + state_text(st),
            s,
            i,
        ),
    decreases s.len() - i,
{
    if i < s.len() {
        let c = s[i];
        let a = spec_char_action(st, line, c);
        lemma_char_action_conserves(st, line, c);
        if c == '\n' || i == s.len() - 1 {
            let b = spec_boundary(a.0, a.1);
            lemma_boundary_conserves(a.0, a.1);
            lemma_scan_from_per_line(b.0, Seq::empty(), s, i + 1);
            assert(line_text(b.1) =~= (line_text(line) + state_text(st)).push(c));
            assert(line_text(Seq::<SpecToken>::empty()) + state_text(b.0) =~= Seq::<
                char,
            >::empty());
            assert(lines_texts(seq![b.1] + scan_from(b.0, Seq::empty(), s, i + 1)) =~= seq![
                line_text(b.1),
            ] + lines_texts(scan_from(b.0, Seq::empty(), s, i + 1)));
        } else {
            lemma_scan_from_per_line(a.0, a.1, s, i + 1);
            assert(line_text(a.1) + state_text(a.0) =~= (line_text(line) + state_text(st)).push(
                c,
            ));
        }
    }
}

/// Each line of the scan spells exactly its own source text: the tokens of
/// line `j`, concatenated, equal the `j`-th newline-delimited segment of
/// the input with carriage returns removed, the newline kept with its line.
pub proof fn lemma_scan_per_line(input: Seq<char>)
    ensures
        lines_texts(scan_spec(input)) == split_lines(strip_cr(input)),
{
    lemma_scan_from_per_line(init_state(), Seq::empty(), strip_cr(input), 0);
    assert(line_text(Seq::<SpecToken>::empty()) + state_text(init_state()) =~= Seq::<
        char,
    >::empty());
}

/// How many newline characters `s` holds from position `i` on.
pub open spec fn newline_count(s: Seq<char>, i: int) -> int
    decreases s.len() - i,
{
    if i < 0 || i >= s.len() {
        0
    } else {
        (if s[i] == '\n' {
            1int
        } else {
            0int
        }) + newline_count(s, i + 1)
    }
}

/// How many newline-delimited segments `s` holds: one per newline, and a
/// trailing partial segment when `s` is non-empty and does not end with a
/// newline.  The empty text has no segments.
pub open spec fn segment_count(s: Seq<char>) -> int {
    if s.len() == 0 {
        0
    } else {
        newline_count(s, 0) + (if s.last() == '\n' {
            0int
        } else {
            1int
        })
    }
}

proof fn lemma_scan_from_count(st: SpecState, line: Seq<SpecToken>, s: Seq<char>, i: int)
    requires
        0 <= i <= s.len(),
    ensures
        scan_from(st, line, s, i).len() == newline_count(s, i) + (if i < s.len() && s.last()
            != '\n' {
            1int
        } else {
            0int
        }),
    decreases s.len() - i,
{
    if i < s.len() {
        let c = s[i];
        let r = spec_step(st, line, c, i == s.len() - 1);
        if c == '\n' || i == s.len() - 1 {
            let a = spec_char_action(st, line, c);
            let b = spec_boundary(a.0, a.1);
            lemma_scan_from_count(b.0, Seq::empty(), s, i + 1);
        } else {
            let a = spec_char_action(st, line, c);
            lemma_scan_from_count(a.0, a.1, s, i + 1);
        }
    }
}

/// The scan has exactly one line per newline-delimited segment of the input
/// with carriage returns removed, a trailing partial segment included; the
/// empty input yields no lines.
pub proof fn lemma_scan_line_count(input: Seq<char>)
    ensures
        scan_spec(input).len() == segment_count(strip_cr(input)),
{
    lemma_scan_from_count(init_state(), Seq::empty(), strip_cr(input), 0);
}

/// Two tokens of the same structural shape: same category, same text, same
/// payload form; single-character payloads are equal outright.
pub open spec fn token_matches(t1: Token, t2: Token) -> bool {
    &&& t1.0 == t2.0
    &&& text_of(t1.1) == text_of(t2.1)
    &&& (t1.1 is Char <==> t2.1 is Char)
    &&& (t1.1 is Char ==> t1.1 == t2.1)
}

/// Scanning the same text twice yields structurally identical outputs: the
/// scan is a function of the input text alone, with no state carried
/// between calls.  Line by line and token by token, the two scans agree in
/// category, text and payload form.
pub proof fn lemma_scan_deterministic(b1: SyntaxBlocks, b2: SyntaxBlocks, input: Seq<char>)
    requires
        blocks_view(b1) == scan_spec(input),
        blocks_repr_ok(b1),
        blocks_view(b2) == scan_spec(input),
        blocks_repr_ok(b2),
    ensures
        blocks_view(b1) == blocks_view(b2),
        b1@.len() == b2@.len(),
        forall|i: int|
            0 <= i < b1@.len() ==> line_tokens(#[trigger] b1@[i]).len() == line_tokens(
                #[trigger] b2@[i],
            ).len(),
        forall|i: int, j: int|
            0 <= i < b1@.len() && 0 <= j < line_tokens(b1@[i]).len() ==> token_matches(
                #[trigger] line_tokens(b1@[i])[j],
                #[trigger] line_tokens(b2@[i])[j],
            ),
{
    assert(blocks_view(b1).len() == b1@.len());
    assert(blocks_view(b2).len() == b2@.len());
    assert forall|i: int| 0 <= i < b1@.len() implies line_view(#[trigger] b1@[i]) == line_view(
        #[trigger] b2@[i],
    ) by {
        assert(blocks_view(b1)[i] == line_view(b1@[i]));
        assert(blocks_view(b2)[i] == line_view(b2@[i]));
    }
    assert forall|i: int| 0 <= i < b1@.len() implies line_tokens(#[trigger] b1@[i]).len()
        == line_tokens(#[trigger] b2@[i]).len() by {
        assert(line_view(b1@[i]).len() == line_tokens(b1@[i]).len());
        assert(line_view(b2@[i]).len() == line_tokens(b2@[i]).len());
        assert(line_view(b1@[i]) == line_view(b2@[i]));
    }
    assert forall|i: int, j: int|
        0 <= i < b1@.len() && 0 <= j < line_tokens(b1@[i]).len() implies token_matches(
        #[trigger] line_tokens(b1@[i])[j],
        #[trigger] line_tokens(b2@[i])[j],
    ) by {
        let l1 = b1@[i];
        let l2 = b2@[i];
        assert(line_view(l1) == line_view(l2));
        let t1 = line_tokens(l1)[j];
        let t2 = line_tokens(l2)[j];
        assert(line_view(l1)[j] == token_view(t1));
        assert(line_view(l2)[j] == token_view(t2));
        assert(t1.0 == t2.0);
        assert(text_of(t1.1) == text_of(t2.1));
        assert(line_repr_ok(l1) && line_repr_ok(l2));
        assert(token_repr_ok(t1) && token_repr_ok(t2));
        match t1.1 {
            TextType::Char(c1) => {
                match t2.1 {
                    TextType::Char(c2) => {
                        assert(seq![c1] == seq![c2]);
                        assert(c1 == seq![c1][0] && c2 == seq![c2][0]);
                    },
                    TextType::String(_) => {
                        assert(false);
                    },
                }
            },
            TextType::String(_) => {},
        }
    }
}

proof fn lemma_trim_start_caps(s: Seq<char>)
    requires
        forall|i: int| 0 <= i < s.len() ==> 'A' <= #[trigger] s[i] && s[i] <= 'Z',
    ensures
        forall|i: int|
            0 <= i < trim_start(s).len() ==> 'A' <= #[trigger] trim_start(s)[i] && trim_start(
                s,
            )[i] <= 'Z',
    decreases s.len(),
{
    if s.len() > 0 && whitespace_char(s.first()) {
        assert forall|i: int|
            0 <= i < s.drop_first().len() implies 'A' <= #[trigger] s.drop_first()[i]
            && s.drop_first()[i] <= 'Z' by {
            assert(s.drop_first()[i] == s[i + 1]);
        }
        lemma_trim_start_caps(s.drop_first());
        assert forall|i: int|
            0 <= i < trim_start(s).len() implies 'A' <= #[trigger] trim_start(s)[i]
            && trim_start(s)[i] <= 'Z' by {
            assert(trim_start(s)[i] == trim_start(s.drop_first())[i]);
        }
    } else {
        assert forall|i: int|
            0 <= i < trim_start(s).len() implies 'A' <= #[trigger] trim_start(s)[i]
            && trim_start(s)[i] <= 'Z' by {
            assert(trim_start(s)[i] == s[i]);
        }
    }
}

proof fn lemma_trim_end_caps(s: Seq<char>)
    requires
        forall|i: int| 0 <= i < s.len() ==> 'A' <= #[trigger] s[i] && s[i] <= 'Z',
    ensures
        forall|i: int|
            0 <= i < trim_end(s).len() ==> 'A' <= #[trigger] trim_end(s)[i] && trim_end(s)[i]
                <= 'Z',
    decreases s.len(),
{
    if s.len() > 0 && whitespace_char(s.last()) {
        assert forall|i: int|
            0 <= i < s.drop_last().len() implies 'A' <= #[trigger] s.drop_last()[i]
            && s.drop_last()[i] <= 'Z' by {
            assert(s.drop_last()[i] == s[i]);
        }
        lemma_trim_end_caps(s.drop_last());
        assert forall|i: int|
            0 <= i < trim_end(s).len() implies 'A' <= #[trigger] trim_end(s)[i] && trim_end(
            s,
        )[i] <= 'Z' by {
            assert(trim_end(s)[i] == trim_end(s.drop_last())[i]);
        }
    } else {
        assert forall|i: int|
            0 <= i < trim_end(s).len() implies 'A' <= #[trigger] trim_end(s)[i] && trim_end(
            s,
        )[i] <= 'Z' by {
            assert(trim_end(s)[i] == s[i]);
        }
    }
}

/// A non-empty word of ASCII capitals alone always classifies as a special
/// keyword, whatever the property flag says, even though it is absent from
/// the fixed special-keyword set.  Capitals carry no Unicode `Lowercase`
/// property, but the character model here leaves `lowercase_char`
/// uninterpreted, so that premise is written out rather than derived.
pub proof fn lemma_all_caps_special(w: Seq<char>, sem: SyntaxSemantic)
    requires
        w.len() > 0,
        forall|i: int| 0 <= i < w.len() ==> 'A' <= #[trigger] w[i] && w[i] <= 'Z',
    ensures
        no_lowercase(w) ==> classify_word(w, sem) == SyntaxType::SpecialKeyword,
{
    let t = trim_ws(w);
    lemma_trim_start_caps(w);
    lemma_trim_end_caps(trim_start(w));
    assert(!generic_keyword(t)) by {
        reveal_strlit("use");
        reveal_strlit("impl");
        reveal_strlit("if");
        reveal_strlit("let");
        reveal_strlit("fn");
        reveal_strlit("struct");
        reveal_strlit("enum");
        reveal_strlit("const");
        reveal_strlit("pub");
        reveal_strlit("crate");
        reveal_strlit("else");
        reveal_strlit("mut");
        reveal_strlit("for");
        reveal_strlit("i8");
        reveal_strlit("u8");
        reveal_strlit("i16");
        reveal_strlit("u16");
        reveal_strlit("i32");
        reveal_strlit("u32");
        reveal_strlit("f32");
        reveal_strlit("i64");
        reveal_strlit("u64");
        reveal_strlit("f64");
        reveal_strlit("i128");
        reveal_strlit("u128");
        reveal_strlit("usize");
        reveal_strlit("isize");
        reveal_strlit("move");
        reveal_strlit("async");
        reveal_strlit("in");
        reveal_strlit("of");
        if t.len() > 0 {
            assert('A' <= t[0] && t[0] <= 'Z');
        }
    }
}

} // verus!
