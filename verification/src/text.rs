//! Strings as sequences of characters.

use vstd::prelude::*;

verus! {

/// Appends one character to a string.
///
/// Trusted: `String::push` of the standard library, which is documented to
/// append the given character to the end of the string.
#[verifier::external_body]
pub(crate) fn push_char(s: &mut String, c: char)
    ensures
        final(s)@ == old(s)@.push(c),
{
    s.push(c)
}

/// Whether two strings hold the same characters.
pub fn same_text(a: &String, b: &String) -> (out: bool)
    ensures
        out == (a@ == b@),
{
    *a == *b
}

/// Whether a string holds the characters of `other`.
pub fn is_text(a: &String, other: &str) -> (out: bool)
    ensures
        out == (a@ == other@),
{
    let owned = other.to_owned();
    *a == owned
}

/// Whether two string slices hold the same characters.
pub fn same_str(a: &str, b: &str) -> (out: bool)
    ensures
        out == (a@ == b@),
{
    let left = a.to_owned();
    let right = b.to_owned();
    left == right
}

/// The text without the white space at its ends.
pub uninterp spec fn trimmed(text: Seq<char>) -> Seq<char>;

/// The text without the white space at its ends.
///
/// Trusted: `str::trim` of the standard library, which drops the leading
/// and trailing characters that Unicode defines as white space. The
/// contract only gives the result a name.
#[verifier::external_body]
pub(crate) fn trim_text(text: &str) -> (out: String)
    ensures
        out@ == trimmed(text@),
{
    text.trim().to_owned()
}

/// The first `upto` of `parts` in one text, with `sep` between two.
pub open spec fn joined_with(parts: Seq<Seq<char>>, sep: Seq<char>, upto: int) -> Seq<char>
    decreases upto,
{
    if upto <= 0 {
        Seq::empty()
    } else if upto == 1 {
        parts[0]
    } else {
        joined_with(parts, sep, upto - 1) + sep + parts[upto - 1]
    }
}

/// The parts in one text, with `sep` between two.
pub fn join_with(parts: &Vec<String>, sep: &str) -> (out: String)
    ensures
        out@ == joined_with(parts.deep_view(), sep@, parts.len() as int),
{
    let ghost all = parts.deep_view();
    let mut out = String::new();
    let mut i: usize = 0;
    while i < parts.len()
        invariant
            i <= parts.len(),
            all == parts.deep_view(),
            out@ == joined_with(all, sep@, i as int),
        decreases parts.len() - i,
    {
        assert(all[i as int] == parts[i as int]@);
        if i > 0 {
            out.append(sep);
        }
        out.append(parts[i].as_str());
        assert(i == 0 ==> out@ =~= all[0]);
        i += 1;
    }
    out
}

/// The text in upper case.
pub uninterp spec fn uppercase(text: Seq<char>) -> Seq<char>;

/// The text in lower case.
pub uninterp spec fn lowercase(text: Seq<char>) -> Seq<char>;

/// The text as a quoted literal with its special characters escaped.
pub uninterp spec fn debug_quoted(text: Seq<char>) -> Seq<char>;

/// The text in upper case.
///
/// Trusted: `str::to_uppercase` of the standard library, which maps each
/// character as Unicode defines its upper case. The contract only gives the
/// result a name.
#[verifier::external_body]
pub(crate) fn to_upper(text: &str) -> (out: String)
    ensures
        out@ == uppercase(text@),
{
    text.to_uppercase()
}

/// The text in lower case.
///
/// Trusted: `str::to_lowercase` of the standard library, which maps each
/// character as Unicode defines its lower case. The contract only gives the
/// result a name.
#[verifier::external_body]
pub(crate) fn to_lower(text: &str) -> (out: String)
    ensures
        out@ == lowercase(text@),
{
    text.to_lowercase()
}

/// The text as a quoted literal.
///
/// Trusted: the `Debug` formatting of `str` in the standard library, which
/// writes the text between double quotes with its special characters
/// escaped. The contract only gives the result a name.
#[verifier::external_body]
pub(crate) fn debug_text(text: &str) -> (out: String)
    ensures
        out@ == debug_quoted(text@),
{
    format!("{:?}", text)
}

/// The characters of `s`, in order.
pub fn to_chars(s: &str) -> (out: Vec<char>)
    ensures
        out@ == s@,
{
    let mut out: Vec<char> = Vec::new();
    for c in it: s.chars()
        invariant
            out@ == it.seq().take(it.index() as int),
            it.seq() == s@,
    {
        out.push(c);
    }
    out
}

/// The string made of the characters of `chars`, in order.
pub fn from_chars(chars: &Vec<char>) -> (out: String)
    ensures
        out@ == chars@,
{
    let mut out = String::new();
    let mut i: usize = 0;
    while i < chars.len()
        invariant
            i <= chars.len(),
            out@ == chars@.take(i as int),
        decreases chars.len() - i,
    {
        push_char(&mut out, chars[i]);
        i += 1;
    }
    out
}

} // verus!
