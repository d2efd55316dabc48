//! Small string operations: verified prefix, suffix and substring helpers,
//! and the trusted items for case folding, quoting and appending.

use vstd::prelude::*;

verus! {

/// Whether `s` begins with the characters of `p`.
pub open spec fn spec_has_prefix(s: Seq<char>, p: Seq<char>) -> bool {
    p.len() <= s.len() && s.subrange(0, p.len() as int) == p
}

/// Whether `s` ends with the characters of `p`.
pub open spec fn spec_has_suffix(s: Seq<char>, p: Seq<char>) -> bool {
    p.len() <= s.len() && s.subrange(s.len() - p.len(), s.len() as int) == p
}

/// Whether `s` begins with the characters of `p`.
pub fn has_prefix(s: &str, p: &str) -> (r: bool)
    ensures
        r == spec_has_prefix(s@, p@),
{
    let s_len = s.unicode_len();
    let p_len = p.unicode_len();
    if p_len > s_len {
        return false;
    }
    let head = s.substring_char(0, p_len);
    crate::order::str_eq(head, p)
}

/// Whether `s` ends with the characters of `p`.
pub fn has_suffix(s: &str, p: &str) -> (r: bool)
    ensures
        r == spec_has_suffix(s@, p@),
{
    let s_len = s.unicode_len();
    let p_len = p.unicode_len();
    if p_len > s_len {
        return false;
    }
    let tail = s.substring_char(s_len - p_len, s_len);
    crate::order::str_eq(tail, p)
}

/// The characters of `s` from `from` (inclusive) to `to` (exclusive), as an
/// owned string.
pub fn substring_owned(s: &str, from: usize, to: usize) -> (r: String)
    requires
        from <= to <= s@.len(),
    ensures
        r@ == s@.subrange(from as int, to as int),
{
    let part = s.substring_char(from, to);
    part.to_owned()
}

/// The case folding of a character sequence, as `str::to_lowercase`
/// computes it. The result depends on the characters alone.
pub uninterp spec fn lower_of(s: Seq<char>) -> Seq<char>;

/// Relies on `str::to_lowercase` of std: the returned string is the
/// lowercase equivalent of the argument, a function of its characters alone.
#[verifier::external_body]
pub fn lowercase(s: &str) -> (r: String)
    ensures
        r@ == lower_of(s@),
{
    s.to_lowercase()
}

/// The quoted form of a character sequence, as the `Debug` formatting of
/// `str` renders it: the text between double quotes, with escapes. The
/// result depends on the characters alone.
pub uninterp spec fn quoted_of(s: Seq<char>) -> Seq<char>;

/// Relies on the `Debug` formatting of `str` in std (through `format!`):
/// the returned string is the argument quoted and escaped, a function of
/// its characters alone.
#[verifier::external_body]
pub fn quote(s: &str) -> (r: String)
    ensures
        r@ == quoted_of(s@),
{
    format!("{:?}", s)
}

/// Relies on `String::push` of std: it appends the given character to the
/// end of the string.
pub assume_specification[ String::push ](s: &mut String, ch: char)
    ensures
        final(s)@ == old(s)@.push(ch),
;

} // verus!
