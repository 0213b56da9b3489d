use vstd::prelude::*;

verus! {

/// The snake_case form of a name, as the inflector crate computes it.
pub uninterp spec fn snake_case(s: Seq<char>) -> Seq<char>;

/// The PascalCase form of a name, as the inflector crate computes it.
pub uninterp spec fn pascal_case(s: Seq<char>) -> Seq<char>;

/// The ClassCase form of a name (PascalCase with its last word made singular), as the
/// inflector crate computes it.
pub uninterp spec fn class_case(s: Seq<char>) -> Seq<char>;

/// Calls `inflector::cases::snakecase::to_snake_case`.
///
/// Trusted: the result depends on the argument alone; what it is, is not stated.
#[verifier::external_body]
pub(crate) fn to_snake_case(s: &str) -> (r: String)
    ensures
        r@ == snake_case(s@),
{
    inflector::cases::snakecase::to_snake_case(s)
}

/// Calls `inflector::cases::pascalcase::to_pascal_case`.
///
/// Trusted: the result depends on the argument alone; what it is, is not stated.
#[verifier::external_body]
pub(crate) fn to_pascal_case(s: &str) -> (r: String)
    ensures
        r@ == pascal_case(s@),
{
    inflector::cases::pascalcase::to_pascal_case(s)
}

/// Calls `inflector::cases::classcase::to_class_case`.
///
/// Trusted: the result depends on the argument alone; what it is, is not stated.
#[verifier::external_body]
pub(crate) fn to_class_case(s: &str) -> (r: String)
    ensures
        r@ == class_case(s@),
{
    inflector::cases::classcase::to_class_case(s)
}

} // verus!
