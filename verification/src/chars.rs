//! Character classes and text helpers used by the scanner.
//!
//! The Unicode classes (white space, numerals) come from `std`'s `char`
//! methods behind trusted wrappers; everything else here is verified.

use vstd::prelude::*;

verus! {

/// Whether `c` counts as white space for the scanner; the meaning of
/// `char::is_whitespace`, a function of the character alone.
pub uninterp spec fn whitespace_char(c: char) -> bool;

/// Relies on `char::is_whitespace`: whether `c` has the Unicode
/// `White_Space` property, a locale-independent function of `c` alone.
/// Of the ASCII characters, the space, tab, line and carriage-return
/// controls have the property and the printable ones do not.
#[verifier::external_body]
pub(crate) fn char_is_whitespace(c: char) -> (r: bool)
    ensures
        r == whitespace_char(c),
        (c == ' ' || c == '\t' || c == '\n' || c == '\r') ==> r,
        ('!' <= c && c <= '~') ==> !r,
{
    c.is_whitespace()
}

/// Whether `c` counts as a numeral for the scanner; the meaning of
/// `char::is_numeric`, a function of the character alone.
pub uninterp spec fn numeric_char(c: char) -> bool;

/// Relies on `char::is_numeric`: whether `c` is in a Unicode `Number`
/// category, a locale-independent function of `c` alone.  Of the ASCII
/// characters, exactly the digits `'0'` to `'9'` are numeric.
#[verifier::external_body]
pub(crate) fn char_is_numeric(c: char) -> (r: bool)
    ensures
        r == numeric_char(c),
        ('0' <= c && c <= '9') ==> r,
        (c <= '~' && !('0' <= c && c <= '9')) ==> !r,
{
    c.is_numeric()
}

/// Whether `c` counts as a lower-case letter for the scanner; the meaning
/// of `char::is_lowercase`, a function of the character alone.
pub uninterp spec fn lowercase_char(c: char) -> bool;

/// Relies on `char::is_lowercase`: whether `c` has the Unicode `Lowercase`
/// property, a locale-independent function of `c` alone.  Of the ASCII
/// characters, exactly the letters `'a'` to `'z'` have it.
#[verifier::external_body]
pub(crate) fn char_is_lowercase(c: char) -> (r: bool)
    ensures
        r == lowercase_char(c),
        ('a' <= c && c <= 'z') ==> r,
        (c <= '~' && !('a' <= c && c <= 'z')) ==> !r,
{
    c.is_lowercase()
}

/// Relies on `String`'s `FromIterator` implementation: collecting the
/// characters of a vector yields the string of exactly those characters,
/// in order.
#[verifier::external_body]
pub(crate) fn chars_to_string(v: Vec<char>) -> (r: String)
    ensures
        r@ == v@,
{
    v.into_iter().collect()
}

/// `s` without its leading white space.
pub open spec fn trim_start(s: Seq<char>) -> Seq<char>
    decreases s.len(),
{
    if s.len() == 0 {
        s
    } else if whitespace_char(s.first()) {
        trim_start(s.drop_first())
    } else {
        s
    }
}

/// `s` without its trailing white space.
pub open spec fn trim_end(s: Seq<char>) -> Seq<char>
    decreases s.len(),
{
    if s.len() == 0 {
        s
    } else if whitespace_char(s.last()) {
        trim_end(s.drop_last())
    } else {
        s
    }
}

/// `s` without its leading and trailing white space: what `str::trim`
/// leaves of it.
pub open spec fn trim_ws(s: Seq<char>) -> Seq<char> {
    trim_end(trim_start(s))
}

/// The fixed punctuation set: each of these characters becomes a
/// single-character `Punctuation` token.
pub open spec fn punctuation_char(c: char) -> bool {
    ||| c == '.'
    ||| c == '{'
    ||| c == '}'
    ||| c == '('
    ||| c == ')'
    ||| c == '='
    ||| c == ';'
    ||| c == '\''
    ||| c == ','
    ||| c == '>'
    ||| c == '<'
    ||| c == ']'
    ||| c == '['
    ||| c == '#'
    ||| c == '&'
    ||| c == '-'
    ||| c == '+'
    ||| c == '^'
    ||| c == '\\'
}

pub(crate) fn is_punctuation_char(c: char) -> (r: bool)
    ensures
        r == punctuation_char(c),
{
    c == '.' || c == '{' || c == '}' || c == '(' || c == ')' || c == '=' || c == ';'
        || c == '\'' || c == ',' || c == '>' || c == '<' || c == ']' || c == '['
        || c == '#' || c == '&' || c == '-' || c == '+' || c == '^' || c == '\\'
}

/// Every character of `s` is white space (true of the empty sequence).
pub open spec fn all_whitespace_chars(s: Seq<char>) -> bool {
    forall|i: int| 0 <= i < s.len() ==> whitespace_char(#[trigger] s[i])
}

/// No character of `s` is lower-case.
pub open spec fn no_lowercase(s: Seq<char>) -> bool {
    forall|i: int| 0 <= i < s.len() ==> !lowercase_char(#[trigger] s[i])
}

pub(crate) fn is_all_whitespace(v: &Vec<char>) -> (r: bool)
    ensures
        r == all_whitespace_chars(v@),
{
    let n = v.len();
    let mut i: usize = 0;
    while i < n
        invariant
            i <= n,
            n == v@.len(),
            forall|j: int| 0 <= j < i ==> whitespace_char(#[trigger] v@[j]),
        decreases n - i,
    {
        if !char_is_whitespace(v[i]) {
            return false;
        }
        i += 1;
    }
    true
}

pub(crate) fn has_no_lowercase(v: &Vec<char>) -> (r: bool)
    ensures
        r == no_lowercase(v@),
{
    let n = v.len();
    let mut i: usize = 0;
    while i < n
        invariant
            i <= n,
            n == v@.len(),
            forall|j: int| 0 <= j < i ==> !lowercase_char(#[trigger] v@[j]),
        decreases n - i,
    {
        if char_is_lowercase(v[i]) {
            return false;
        }
        i += 1;
    }
    true
}

/// The index where the non-white-space part of `v` begins.
fn find_word_start(v: &Vec<char>) -> (s: usize)
    ensures
        s <= v@.len(),
        trim_start(v@) == v@.subrange(s as int, v@.len() as int),
{
    let n = v.len();
    proof {
        assert(v@.subrange(0, n as int) =~= v@);
    }
    let mut start: usize = 0;
    while start < n
        invariant
            start <= n,
            n == v@.len(),
            trim_start(v@) == trim_start(v@.subrange(start as int, n as int)),
        decreases n - start,
    {
        let sub = Ghost(v@.subrange(start as int, n as int));
        if !char_is_whitespace(v[start]) {
            proof {
                assert(sub@.first() == v@[start as int]);
                assert(trim_start(sub@) == sub@);
            }
            return start;
        }
        proof {
            assert(sub@.first() == v@[start as int]);
            assert(sub@.drop_first() =~= v@.subrange(start + 1, n as int));
        }
        start += 1;
    }
    proof {
        assert(v@.subrange(n as int, n as int) =~= Seq::<char>::empty());
    }
    n
}

/// The characters of `v` from `a` up to `b`.
fn copy_range(v: &Vec<char>, a: usize, b: usize) -> (r: Vec<char>)
    requires
        a <= b <= v@.len(),
    ensures
        r@ == v@.subrange(a as int, b as int),
{
    let mut r: Vec<char> = Vec::new();
    proof {
        assert(v@.subrange(a as int, a as int) =~= Seq::<char>::empty());
    }
    let mut i: usize = a;
    while i < b
        invariant
            a <= i <= b,
            b <= v@.len(),
            r@ == v@.subrange(a as int, i as int),
        decreases b - i,
    {
        r.push(v[i]);
        proof {
            assert(v@.subrange(a as int, i + 1) =~= v@.subrange(a as int, i as int).push(
                v@[i as int],
            ));
        }
        i += 1;
    }
    r
}

/// The word without its leading and trailing white space, as the
/// classification of a flushed buffer reads it.
pub(crate) fn trim_word(v: &Vec<char>) -> (r: Vec<char>)
    ensures
        r@ == trim_ws(v@),
{
    let n = v.len();
    let start = find_word_start(v);
    let mut end: usize = n;
    while end > start
        invariant
            start <= end <= n,
            n == v@.len(),
            trim_start(v@) == v@.subrange(start as int, n as int),
            trim_end(v@.subrange(start as int, n as int)) == trim_end(
                v@.subrange(start as int, end as int),
            ),
        decreases end,
    {
        let sub = Ghost(v@.subrange(start as int, end as int));
        if !char_is_whitespace(v[end - 1]) {
            proof {
                assert(sub@.last() == v@[end - 1]);
                assert(trim_end(sub@) == sub@);
            }
            return copy_range(v, start, end);
        }
        proof {
            assert(sub@.last() == v@[end - 1]);
            assert(sub@.drop_last() =~= v@.subrange(start as int, end - 1));
        }
        end -= 1;
    }
    proof {
        assert(v@.subrange(start as int, start as int) =~= Seq::<char>::empty());
    }
    Vec::new()
}

/// The characters of `v` spell exactly the string slice `s`.
pub(crate) fn word_is(v: &Vec<char>, s: &str) -> (r: bool)
    ensures
        r == (v@ == s@),
{
    let n = s.unicode_len();
    if v.len() != n {
        return false;
    }
    let mut i: usize = 0;
    while i < n
        invariant
            i <= n,
            n == s@.len(),
            v@.len() == n,
            forall|j: int| 0 <= j < i ==> v@[j] == s@[j],
        decreases n - i,
    {
        if v[i] != s.get_char(i) {
            return false;
        }
        i += 1;
    }
    proof {
        assert(v@ =~= s@);
    }
    true
}

} // verus!
