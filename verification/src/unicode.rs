//! The text conversions of the standard library that are taken as they are.

use vstd::prelude::*;
use vstd::utf8::{decode_utf8, is_ascii_chars, valid_utf8};

verus! {

/// What `String::from_utf8_lossy` makes of bytes.
pub uninterp spec fn lossy_of(bytes: Seq<u8>) -> Seq<char>;

/// What `str::to_lowercase` makes of a text.
pub uninterp spec fn lowercase_of(s: Seq<char>) -> Seq<char>;

/// What `str::to_uppercase` makes of a text.
pub uninterp spec fn uppercase_of(s: Seq<char>) -> Seq<char>;

/// An ASCII letter in lower case; any other character as it is.
pub open spec fn ascii_lower(c: char) -> char {
    if 'A' <= c <= 'Z' {
        (c as nat + 32) as char
    } else {
        c
    }
}

/// An ASCII letter in upper case; any other character as it is.
pub open spec fn ascii_upper(c: char) -> char {
    if 'a' <= c <= 'z' {
        (c as nat - 32) as char
    } else {
        c
    }
}

/// A text with its ASCII letters in lower case.
pub open spec fn ascii_lowercase(s: Seq<char>) -> Seq<char> {
    s.map_values(|c: char| ascii_lower(c))
}

/// A text with its ASCII letters in upper case.
pub open spec fn ascii_uppercase(s: Seq<char>) -> Seq<char> {
    s.map_values(|c: char| ascii_upper(c))
}

/// `String::from_utf8_lossy`, owned: a text that depends on the bytes alone.
/// Bytes that are valid UTF-8 give the characters that they encode. What
/// stands in place of invalid ones is not said.
#[verifier::external_body]
pub(crate) fn utf8_lossy(bytes: &[u8]) -> (s: String)
    ensures
        s@ == lossy_of(bytes@),
        valid_utf8(bytes@) ==> s@ == decode_utf8(bytes@),
{
    String::from_utf8_lossy(bytes).into_owned()
}

/// `str::to_lowercase`: a text that depends on the given one alone, and that
/// has the letters of an ASCII text in lower case, one for one. What becomes
/// of other letters is not said.
#[verifier::external_body]
pub(crate) fn lowercase(s: &str) -> (r: String)
    ensures
        r@ == lowercase_of(s@),
        is_ascii_chars(s@) ==> r@ == ascii_lowercase(s@),
{
    s.to_lowercase()
}

/// `str::to_uppercase`: a text that depends on the given one alone, and that
/// has the letters of an ASCII text in upper case, one for one. What becomes
/// of other letters is not said.
#[verifier::external_body]
pub(crate) fn uppercase(s: &str) -> (r: String)
    ensures
        r@ == uppercase_of(s@),
        is_ascii_chars(s@) ==> r@ == ascii_uppercase(s@),
{
    s.to_uppercase()
}

/// Each ASCII letter has its place in both alphabets. All else stays as it is, and
/// a text changes character by character.
pub proof fn law_ascii_letters_have_two_cases(s: Seq<char>, k: int, c: char, i: int)
    requires
        0 <= k < 26,
        0 <= i < s.len(),
    ensures
        ascii_lower("ABCDEFGHIJKLMNOPQRSTUVWXYZ"@[k]) == "abcdefghijklmnopqrstuvwxyz"@[k],
        ascii_upper("abcdefghijklmnopqrstuvwxyz"@[k]) == "ABCDEFGHIJKLMNOPQRSTUVWXYZ"@[k],
        !"ABCDEFGHIJKLMNOPQRSTUVWXYZ"@.contains(c) ==> ascii_lower(c) == c,
        !"abcdefghijklmnopqrstuvwxyz"@.contains(c) ==> ascii_upper(c) == c,
        ascii_lowercase(s).len() == s.len() && ascii_lowercase(s)[i] == ascii_lower(s[i]),
        ascii_uppercase(s).len() == s.len() && ascii_uppercase(s)[i] == ascii_upper(s[i]),
{
    reveal_strlit("ABCDEFGHIJKLMNOPQRSTUVWXYZ");
    reveal_strlit("abcdefghijklmnopqrstuvwxyz");
    if 'A' <= c <= 'Z' {
        assert("ABCDEFGHIJKLMNOPQRSTUVWXYZ"@[c as int - 'A' as int] == c);
    }
    if 'a' <= c <= 'z' {
        assert("abcdefghijklmnopqrstuvwxyz"@[c as int - 'a' as int] == c);
    }
}

} // verus!
