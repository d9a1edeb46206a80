//! The token vocabulary of the scanner: syntax categories, token payloads,
//! and the classification of accumulated words.

use vstd::prelude::*;

use crate::chars::chars_to_string;
use crate::chars::no_lowercase;
use crate::chars::trim_ws;
use crate::chars::word_is;

verus! {

/// The syntax category of a token.  It decides the display colour and never
/// changes after the token is produced.
#[derive(Clone, Debug, PartialEq)]
pub enum SyntaxType {
    Number,
    String,
    Keyword,
    SpecialKeyword,
    Punctuation,
    Unknown,
    Property,
    Comment,
}

/// The RGB constant that each syntax category is painted with.
pub open spec fn spec_color(t: SyntaxType) -> Seq<char> {
    match t {
        SyntaxType::Keyword => "rgb(215, 85, 67)"@,
        SyntaxType::String => "rgb(184, 187, 38)"@,
        SyntaxType::Number => "rgb(211, 134, 155)"@,
        SyntaxType::Punctuation => "rgb(104, 157, 96)"@,
        SyntaxType::Unknown => "rgb(189, 174, 147)"@,
        SyntaxType::Property => "rgb(168, 168, 37)"@,
        SyntaxType::SpecialKeyword => "rgb(211, 134, 155)"@,
        SyntaxType::Comment => "gray"@,
    }
}

impl SyntaxType {
    /// The colour the renderer uses for this category: a static total
    /// mapping with one entry per category.
    pub fn color(&self) -> (r: &str)
        ensures
            r@ == spec_color(*self),
    {
        match self {
            SyntaxType::Keyword => "rgb(215, 85, 67)",
            SyntaxType::String => "rgb(184, 187, 38)",
            SyntaxType::Number => "rgb(211, 134, 155)",
            SyntaxType::Punctuation => "rgb(104, 157, 96)",
            SyntaxType::Unknown => "rgb(189, 174, 147)",
            SyntaxType::Property => "rgb(168, 168, 37)",
            SyntaxType::SpecialKeyword => "rgb(211, 134, 155)",
            SyntaxType::Comment => "gray",
        }
    }
}

/// What the most recent punctuation implies for the next word: after a `.`
/// the next word is a property access.
#[derive(Clone, Copy, PartialEq, Eq, Structural, Debug)]
pub enum SyntaxSemantic {
    Unknown,
    PropertyAccess,
}

impl From<SyntaxSemantic> for SyntaxType {
    fn from(value: SyntaxSemantic) -> (r: SyntaxType) {
        match value {
            SyntaxSemantic::PropertyAccess => SyntaxType::Property,
            SyntaxSemantic::Unknown => SyntaxType::Unknown,
        }
    }
}

impl vstd::std_specs::convert::FromSpecImpl<SyntaxSemantic> for SyntaxType {
    open spec fn obeys_from_spec() -> bool {
        true
    }

    open spec fn from_spec(value: SyntaxSemantic) -> SyntaxType {
        match value {
            SyntaxSemantic::PropertyAccess => SyntaxType::Property,
            SyntaxSemantic::Unknown => SyntaxType::Unknown,
        }
    }
}

/// A token's payload: an owned run of text, or a single character (used for
/// numerals and punctuation).  Either way the original text is recoverable
/// exactly.
#[derive(PartialEq, Clone, Debug)]
pub enum TextType {
    String(String),
    Char(char),
}

/// The text a token payload stands for.
pub open spec fn text_of(t: TextType) -> Seq<char> {
    match t {
        TextType::String(s) => s@,
        TextType::Char(c) => seq![c],
    }
}

impl TextType {
    /// The payload's text as an owned string.
    pub fn to_text(&self) -> (r: String)
        ensures
            r@ == text_of(*self),
    {
        match self {
            TextType::String(s) => s.clone(),
            TextType::Char(c) => chars_to_string(vec![*c]),
        }
    }
}

/// A token: a syntax category together with the exact text it covers.
pub type Token = (SyntaxType, TextType);

/// The view of a token: its category and the text it covers.
pub open spec fn token_view(t: Token) -> (SyntaxType, Seq<char>) {
    (t.0, text_of(t.1))
}

/// The fixed generic-keyword set.
pub open spec fn generic_keyword(w: Seq<char>) -> bool {
    ||| w == "use"@
    ||| w == "impl"@
    ||| w == "if"@
    ||| w == "let"@
    ||| w == "fn"@
    ||| w == "struct"@
    ||| w == "enum"@
    ||| w == "const"@
    ||| w == "pub"@
    ||| w == "crate"@
    ||| w == "else"@
    ||| w == "mut"@
    ||| w == "for"@
    ||| w == "i8"@
    ||| w == "u8"@
    ||| w == "i16"@
    ||| w == "u16"@
    ||| w == "i32"@
    ||| w == "u32"@
    ||| w == "f32"@
    ||| w == "i64"@
    ||| w == "u64"@
    ||| w == "f64"@
    ||| w == "i128"@
    ||| w == "u128"@
    ||| w == "usize"@
    ||| w == "isize"@
    ||| w == "move"@
    ||| w == "async"@
    ||| w == "in"@
    ||| w == "of"@
}

/// The fixed special-keyword set.
pub open spec fn special_keyword(w: Seq<char>) -> bool {
    ||| w == "self"@
    ||| w == "Self"@
    ||| w == "false"@
    ||| w == "true"@
}

pub(crate) fn is_generic_keyword(v: &Vec<char>) -> (r: bool)
    ensures
        r == generic_keyword(v@),
{
    word_is(v, "use") || word_is(v, "impl") || word_is(v, "if") || word_is(v, "let")
        || word_is(v, "fn") || word_is(v, "struct") || word_is(v, "enum")
        || word_is(v, "const") || word_is(v, "pub") || word_is(v, "crate")
        || word_is(v, "else") || word_is(v, "mut") || word_is(v, "for")
        || word_is(v, "i8") || word_is(v, "u8") || word_is(v, "i16")
        || word_is(v, "u16") || word_is(v, "i32") || word_is(v, "u32")
        || word_is(v, "f32") || word_is(v, "i64") || word_is(v, "u64")
        || word_is(v, "f64") || word_is(v, "i128") || word_is(v, "u128")
        || word_is(v, "usize") || word_is(v, "isize") || word_is(v, "move")
        || word_is(v, "async") || word_is(v, "in") || word_is(v, "of")
}

pub(crate) fn is_special_keyword(v: &Vec<char>) -> (r: bool)
    ensures
        r == special_keyword(v@),
{
    word_is(v, "self") || word_is(v, "Self") || word_is(v, "false") || word_is(v, "true")
}

/// How a flushed word is classified: its trimmed text a generic keyword;
/// else its trimmed text a special keyword, or the word without lower-case
/// letters; else a property access if the word follows a `.`, and otherwise
/// unclassified.
pub open spec fn classify_word(w: Seq<char>, sem: SyntaxSemantic) -> SyntaxType {
    if generic_keyword(trim_ws(w)) {
        SyntaxType::Keyword
    } else if special_keyword(trim_ws(w)) || no_lowercase(w) {
        SyntaxType::SpecialKeyword
    } else if sem == SyntaxSemantic::PropertyAccess {
        SyntaxType::Property
    } else {
        SyntaxType::Unknown
    }
}

/// A token's payload takes the form the scanner gives it: numerals and
/// punctuation are single characters, every other token owns its text as a
/// string.
pub open spec fn token_repr_ok(t: Token) -> bool {
    (t.1 is Char) <==> (t.0 == SyntaxType::Number || t.0 == SyntaxType::Punctuation)
}

/// Every token of `ts` takes the payload form the scanner gives it.
pub open spec fn tokens_repr_ok(ts: Seq<Token>) -> bool {
    forall|j: int| 0 <= j < ts.len() ==> token_repr_ok(#[trigger] ts[j])
}

pub proof fn lemma_tokens_repr_push(ts: Seq<Token>, t: Token)
    requires
        tokens_repr_ok(ts),
        token_repr_ok(t),
    ensures
        tokens_repr_ok(ts.push(t)),
{
    assert forall|j: int| 0 <= j < ts.push(t).len() implies token_repr_ok(
        #[trigger] ts.push(t)[j],
    ) by {
        if j < ts.len() {
            assert(ts.push(t)[j] == ts[j]);
        } else {
            assert(ts.push(t)[j] == t);
        }
    }
}

} // verus!
