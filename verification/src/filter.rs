//! Filters that select entries by their attributes.

use vstd::prelude::*;

use crate::attrs::Attrs;

verus! {

/// A condition on the attributes of an entry.
#[derive(Debug, PartialEq)]
pub enum Filter {
    /// The attribute has the value.
    Eq(String, String),
    /// A value of the attribute contains the string.
    Sub(String, String),
    /// The attribute is present.
    Pres(String),
    /// One of the filters matches.
    Or(Vec<Filter>),
    /// All of the filters match.
    And(Vec<Filter>),
    /// The filter does not match.
    Not(Box<Filter>),
}

/// The attribute `attr` has the value `value`.
pub open spec fn has_value(m: Attrs, attr: Seq<char>, value: Seq<char>) -> bool {
    m.contains_key(attr) && m[attr].contains(value)
}

/// The filter matches the attributes `m`. Substrings are not matched: of a filter that is
/// not `evaluable`, this says nothing.
pub open spec fn matches(f: Filter, m: Attrs) -> bool
    decreases f,
{
    match f {
        Filter::Eq(attr, value) => has_value(m, attr@, value@),
        Filter::Sub(_, _) => false,
        Filter::Pres(attr) => m.contains_key(attr@),
        Filter::Or(l) => exists|i: int| 0 <= i < l@.len() && matches(#[trigger] l@[i], m),
        Filter::And(l) => forall|i: int| 0 <= i < l@.len() ==> matches(#[trigger] l@[i], m),
        Filter::Not(g) => !matches(*g, m),
    }
}

/// No substring condition is met on the way to the answer. A disjunction is asked up to the
/// first filter that matches, a conjunction up to the first that does not.
pub open spec fn evaluable(f: Filter, m: Attrs) -> bool
    decreases f,
{
    match f {
        Filter::Eq(_, _) => true,
        Filter::Sub(_, _) => false,
        Filter::Pres(_) => true,
        Filter::Or(l) => forall|i: int|
            0 <= i < l@.len() && (forall|j: int| 0 <= j < i ==> !matches(#[trigger] l@[j], m))
                ==> evaluable(#[trigger] l@[i], m),
        Filter::And(l) => forall|i: int|
            0 <= i < l@.len() && (forall|j: int| 0 <= j < i ==> matches(#[trigger] l@[j], m))
                ==> evaluable(#[trigger] l@[i], m),
        Filter::Not(g) => evaluable(*g, m),
    }
}

/// A conjunction matches when all its filters do.
pub proof fn lemma_and(l: Vec<Filter>, m: Attrs)
    ensures
        matches(Filter::And(l), m) <==> forall|i: int|
            0 <= i < l@.len() ==> matches(#[trigger] l@[i], m),
{
    reveal_with_fuel(matches, 2);
    let f = Filter::And(l);
    assert(f->And_0 == l);
}

} // verus!
