//! Text primitives shared by the generator: string comparison and case
//! conversion, both delegated to code that is not verified here.

use heck::SnakeCase;
use vstd::prelude::*;

verus! {

/// The snake-case form that `heck` gives to `s`: the words of `s`, lower-cased
/// and joined by single underscores. The word segmentation follows Unicode
/// rules and is not restated here; the conversion is a function of `s` alone.
pub uninterp spec fn snake_case_of(s: Seq<char>) -> Seq<char>;

/// Calls `heck::SnakeCase::to_snake_case` on `s`.
///
/// Trusted: the result is the snake-case form of `s`, whatever `s` holds. The
/// conversion never fails and reads nothing but its argument.
#[verifier::external_body]
pub(crate) fn snake_case(s: &str) -> (out: String)
    ensures
        out@ == snake_case_of(s@),
{
    s.to_snake_case()
}

/// Compares two string slices with `==` of `str`.
///
/// Trusted: `str` equality holds exactly when both slices hold the same
/// characters in the same order.
#[verifier::external_body]
pub(crate) fn str_eq(a: &str, b: &str) -> (r: bool)
    ensures
        r == (a@ == b@),
{
    a == b
}

} // verus!
