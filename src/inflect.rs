use vstd::prelude::*;

verus! {

/// What inflector's table case makes of a name: snake case, last word plural.
pub uninterp spec fn table_case_of(s: Seq<char>) -> Seq<char>;

/// What inflector's pascal case makes of a name.
pub uninterp spec fn pascal_case_of(s: Seq<char>) -> Seq<char>;

/// Relies on `inflector::cases::tablecase::to_table_case`, which turns a
/// model name into the plural snake case used for its URL segment.
#[verifier::external_body]
pub(crate) fn table_case(s: &str) -> (r: String)
    ensures
        r@ == table_case_of(s@),
{
    inflector::cases::tablecase::to_table_case(s)
}

/// Relies on `inflector::cases::pascalcase::to_pascal_case`, which turns a
/// relation name into the pascal case used inside generated type names.
#[verifier::external_body]
pub(crate) fn pascal_case(s: &str) -> (r: String)
    ensures
        r@ == pascal_case_of(s@),
{
    inflector::cases::pascalcase::to_pascal_case(s)
}

} // verus!
