//! Small executable helpers over strings, with exact contracts.

use vstd::prelude::*;

verus! {

use vstd::string::StrSliceExecFns;
use vstd::string::StringExecFns;

/// Relies on std's `String::push`: appends the given char to the end of
/// this string.
pub assume_specification[ String::push ](s: &mut String, c: char)
    ensures
        final(s)@ == old(s)@.push(c),
;

/// The text std's `escape_debug` yields for a string: a pure function
/// of the characters alone.
pub uninterp spec fn escaped_text(s: Seq<char>) -> Seq<char>;

/// Relies on std's `str::escape_debug`: escapes per Rust's debug rules,
/// a pure function of the characters.
#[verifier::external_body]
pub(crate) fn escape_debug_string(s: &str) -> (r: String)
    ensures
        r@ == escaped_text(s@),
{
    s.escape_debug().to_string()
}

/// Whether std considers a character whitespace: a fixed property of the
/// character alone.
pub uninterp spec fn spec_is_whitespace(c: char) -> bool;

/// Relies on std's `char::is_whitespace`: a fixed classification of the
/// character.
pub assume_specification[ char::is_whitespace ](c: char) -> (r: bool)
    ensures
        r == spec_is_whitespace(c),
;

/// Whether `p` is a prefix of `s`.
pub open spec fn is_prefix(p: Seq<char>, s: Seq<char>) -> bool {
    p.len() <= s.len() && s.subrange(0, p.len() as int) == p
}

/// Whether `p` is a suffix of `s`.
pub open spec fn is_suffix(p: Seq<char>, s: Seq<char>) -> bool {
    p.len() <= s.len() && s.subrange(s.len() - p.len(), s.len() as int) == p
}

pub fn str_starts_with(s: &str, p: &str) -> (r: bool)
    ensures
        r == is_prefix(p@, s@),
{
    let slen = s.unicode_len();
    let plen = p.unicode_len();
    if plen > slen {
        return false;
    }
    let head = s.substring_char(0, plen).to_owned();
    let p_owned = p.to_owned();
    head == p_owned
}

pub fn str_ends_with(s: &str, p: &str) -> (r: bool)
    ensures
        r == is_suffix(p@, s@),
{
    let slen = s.unicode_len();
    let plen = p.unicode_len();
    if plen > slen {
        return false;
    }
    let tail = s.substring_char(slen - plen, slen).to_owned();
    let p_owned = p.to_owned();
    tail == p_owned
}

/// `s` without the suffix `p`; `s` itself when `p` is not a suffix.
pub fn strip_suffix(s: &str, p: &str) -> (r: String)
    ensures
        is_suffix(p@, s@) ==> r@ == s@.subrange(0, s@.len() - p@.len()),
        !is_suffix(p@, s@) ==> r@ == s@,
{
    if str_ends_with(s, p) {
        let slen = s.unicode_len();
        let plen = p.unicode_len();
        s.substring_char(0, slen - plen).to_owned()
    } else {
        s.to_owned()
    }
}

/// `s` without the prefix `p` when it has one, `s` itself otherwise.
pub open spec fn spec_strip_prefix(p: Seq<char>, s: Seq<char>) -> Seq<char> {
    if is_prefix(p, s) {
        s.subrange(p.len() as int, s.len() as int)
    } else {
        s
    }
}

/// `s` without the prefix `p`; `s` itself when `p` is not a prefix.
pub fn strip_prefix(s: &str, p: &str) -> (r: String)
    ensures
        r@ == spec_strip_prefix(p@, s@),
{
    if str_starts_with(s, p) {
        let slen = s.unicode_len();
        let plen = p.unicode_len();
        s.substring_char(plen, slen).to_owned()
    } else {
        s.to_owned()
    }
}

} // verus!
