//! Case conversions used by formatter templates. What each conversion
//! returns is named, not spelled out: it depends on the text alone.
use vstd::prelude::*;

verus! {

pub uninterp spec fn lower_case_of(s: Seq<char>) -> Seq<char>;

pub uninterp spec fn upper_case_of(s: Seq<char>) -> Seq<char>;

pub uninterp spec fn pascal_case_of(s: Seq<char>) -> Seq<char>;

pub uninterp spec fn snake_case_of(s: Seq<char>) -> Seq<char>;

pub uninterp spec fn screaming_snake_case_of(s: Seq<char>) -> Seq<char>;

/// Relies on `str::to_lowercase`: the result depends on the characters alone.
#[verifier::external_body]
pub(crate) fn to_lower(s: &str) -> (r: String)
    ensures
        r@ == lower_case_of(s@),
        s@.len() == 0 ==> r@.len() == 0,
{
    s.to_lowercase()
}

/// Relies on `str::to_uppercase`: the result depends on the characters alone.
#[verifier::external_body]
pub(crate) fn to_upper(s: &str) -> (r: String)
    ensures
        r@ == upper_case_of(s@),
        s@.len() == 0 ==> r@.len() == 0,
{
    s.to_uppercase()
}

/// Relies on `inflector::cases::pascalcase::to_pascal_case`: the result
/// depends on the characters alone.
#[verifier::external_body]
pub(crate) fn to_pascal(s: &str) -> (r: String)
    ensures
        r@ == pascal_case_of(s@),
        s@.len() == 0 ==> r@.len() == 0,
{
    inflector::cases::pascalcase::to_pascal_case(s)
}

/// Relies on `inflector::cases::snakecase::to_snake_case`: the result
/// depends on the characters alone.
#[verifier::external_body]
pub(crate) fn to_snake(s: &str) -> (r: String)
    ensures
        r@ == snake_case_of(s@),
        s@.len() == 0 ==> r@.len() == 0,
{
    inflector::cases::snakecase::to_snake_case(s)
}

/// Relies on `inflector::cases::screamingsnakecase::to_screaming_snake_case`:
/// the result depends on the characters alone.
#[verifier::external_body]
pub(crate) fn to_screaming_snake(s: &str) -> (r: String)
    ensures
        r@ == screaming_snake_case_of(s@),
        s@.len() == 0 ==> r@.len() == 0,
{
    inflector::cases::screamingsnakecase::to_screaming_snake_case(s)
}

} // verus!
