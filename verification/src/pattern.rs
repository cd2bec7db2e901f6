//! Expressions in tag filters.

use crate::filter::Filter;
use regex::Regex;
use vstd::prelude::*;

verus! {

/// Whether `regex::Regex::new` accepts an expression.
pub uninterp spec fn compiles(expr: Seq<char>) -> bool;

/// Whether `regex::Regex::is_match` finds a match of an expression anywhere in a
/// text.
pub uninterp spec fn finds(expr: Seq<char>, text: Seq<char>) -> bool;

/// Calls `Regex::new`, and tells whether it accepts the expression.
#[verifier::external_body]
pub(crate) fn compile_check(expr: &str) -> (r: bool)
    ensures
        r == compiles(expr@),
{
    Regex::new(expr).is_ok()
}

/// Calls `Regex::is_match` on the expression that `Regex::new` accepts: whether it
/// finds a match in the text. Nothing comes back for an expression that is not
/// accepted.
#[verifier::external_body]
pub(crate) fn search(expr: &str, text: &str) -> (r: Option<bool>)
    ensures
        r is Some == compiles(expr@),
        r matches Some(b) ==> b == finds(expr@, text@),
{
    match Regex::new(expr) {
        Ok(re) => Some(re.is_match(text)),
        Err(_) => None,
    }
}

/// Whether a filter holds an expression that is not accepted.
pub open spec fn is_broken<I>(filter: Filter<I>) -> bool {
    filter matches Filter::Tag(t) && t.expr matches Some(e) && !compiles(e@)
}

/// Whether every expression in the filters is accepted.
pub open spec fn all_compile<I>(filters: Seq<Filter<I>>) -> bool {
    forall|i: int| 0 <= i < filters.len() ==> !is_broken(#[trigger] filters[i])
}

/// Returns `true` if every expression in the filters is accepted.
pub fn filters_compile<I>(filters: &Vec<Filter<I>>) -> (r: bool)
    ensures
        r == all_compile(filters@),
{
    let mut i: usize = 0;
    while i < filters.len()
        invariant
            i <= filters@.len(),
            forall|j: int| 0 <= j < i ==> !is_broken(#[trigger] filters@[j]),
        decreases filters@.len() - i,
    {
        match &filters[i] {
            Filter::Tag(t) => match &t.expr {
                Some(e) => {
                    if !compile_check(e.as_str()) {
                        assert(is_broken(filters@[i as int]));
                        return false;
                    }
                },
                None => {},
            },
            Filter::Id(_) => {},
        }
        i += 1;
    }
    true
}

/// The filters are accepted exactly if every expression in a filter by tag is.
pub proof fn every_expression_must_compile<I>(filters: Seq<Filter<I>>)
    ensures
        all_compile(filters) <==> forall|i: int|
            0 <= i < filters.len() ==> (#[trigger] filters[i] matches Filter::Tag(f) ==> (
            f.expr matches Some(e) ==> compiles(e@))),
{
    if all_compile(filters) {
        assert forall|i: int| 0 <= i < filters.len() implies (
        #[trigger] filters[i] matches Filter::Tag(f) ==> (f.expr matches Some(e) ==> compiles(
            e@,
        ))) by {
            assert(!is_broken(filters[i]));
        }
    }
}

} // verus!
