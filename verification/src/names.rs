//! The names that generated code gives to interfaces, messages and
//! arguments. The change of case is the work of `heck`; this file states,
//! without proof, only that each name is a function of the text it is made
//! from.

use heck::ToShoutySnakeCase;
use heck::ToSnakeCase;
use heck::ToUpperCamelCase;
use vstd::prelude::*;

verus! {

/// A text in upper camel case, as `heck` makes it.
pub uninterp spec fn upper_camel_case(text: Seq<char>) -> Seq<char>;

/// A text in snake case, as `heck` makes it.
pub uninterp spec fn snake_case(text: Seq<char>) -> Seq<char>;

/// A text in shouty snake case, as `heck` makes it.
pub uninterp spec fn shouty_snake_case(text: Seq<char>) -> Seq<char>;

/// `heck::ToUpperCamelCase::to_upper_camel_case` on a `str`: the words of the
/// text, each with a capital first letter, run together. The result depends
/// on the text alone.
#[verifier::external_body]
pub(crate) fn to_upper_camel_case(text: &str) -> (name: String)
    ensures
        name@ == upper_camel_case(text@),
{
    text.to_upper_camel_case()
}

/// `heck::ToSnakeCase::to_snake_case` on a `str`: the words of the text in
/// lower case, with underscores between them. The result depends on the text
/// alone.
#[verifier::external_body]
pub(crate) fn to_snake_case(text: &str) -> (name: String)
    ensures
        name@ == snake_case(text@),
{
    text.to_snake_case()
}

/// `heck::ToShoutySnakeCase::to_shouty_snake_case` on a `str`: the words of
/// the text in capitals, with underscores between them. The result depends
/// on the text alone.
#[verifier::external_body]
pub(crate) fn to_shouty_snake_case(text: &str) -> (name: String)
    ensures
        name@ == shouty_snake_case(text@),
{
    text.to_shouty_snake_case()
}

} // verus!
