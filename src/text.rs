use vstd::prelude::*;

verus! {

/// Whether `pattern` occurs in `text` as a contiguous run of characters.
pub open spec fn is_substring(pattern: Seq<char>, text: Seq<char>) -> bool {
    exists|i: int|
        0 <= i && i + pattern.len() <= text.len() && #[trigger] text.subrange(i, i + pattern.len())
            == pattern
}

/// Relies on `str::contains` with a `&str` pattern: true exactly when the
/// pattern occurs in the text.
#[verifier::external_body]
pub(crate) fn contains_text(text: &str, pattern: &str) -> (r: bool)
    ensures
        r == is_substring(pattern@, text@),
{
    text.contains(pattern)
}

/// Whether an optional field holds `pattern`; an absent field never does.
pub fn field_contains(field: &Option<String>, pattern: &str) -> (r: bool)
    ensures
        r == match *field {
            Some(t) => is_substring(pattern@, t@),
            None => false,
        },
{
    match field {
        Some(t) => contains_text(t.as_str(), pattern),
        None => false,
    }
}

} // verus!
