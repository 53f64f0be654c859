//! Identifier casing and lowercasing, done by outside code whose results
//! are named here so that contracts can speak of them exactly.

use vstd::prelude::*;
use heck::ToPascalCase;

verus! {

/// The capitalized-identifier (PascalCase) form of a character sequence,
/// as `heck` computes it. The result depends on the characters alone.
pub uninterp spec fn pascal_of(s: Seq<char>) -> Seq<char>;

/// The Unicode lowercase form of a character sequence, as
/// `str::to_lowercase` computes it. The result depends on the characters
/// alone.
pub uninterp spec fn lower_of(s: Seq<char>) -> Seq<char>;

/// Relies on `heck::ToPascalCase::to_pascal_case`: a pure word-splitting
/// and capitalizing transformation of its input.
#[verifier::external_body]
pub fn to_pascal_case(s: &str) -> (r: String)
    ensures
        r@ == pascal_of(s@),
{
    ToPascalCase::to_pascal_case(s)
}

/// Relies on `str::to_lowercase`: the lowercase equivalent of the input,
/// determined character by character by the Unicode tables.
#[verifier::external_body]
pub fn to_lowercase(s: &str) -> (r: String)
    ensures
        r@ == lower_of(s@),
{
    s.to_lowercase()
}

} // verus!
