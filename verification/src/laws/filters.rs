//! What holds of filters: what an answer says of the entry, how the answers to a filter and to
//! its parts go together, and what the filter made of an entry asks for.

use vstd::prelude::*;

use crate::entry::matching;
use crate::entry::{Entry, EntryValid};
use crate::filter;
use crate::filter::Filter;
use crate::laws;
use crate::values;

verus! {

/// A filter for a value matches just when the entry has the attribute and the value is
/// somewhere among its values. A filter for an attribute matches just when the entry has it.
pub proof fn law_match_of_a_condition<STATE>(
    e: Entry<EntryValid, STATE>,
    attr: String,
    value: String,
    equal: bool,
    present: bool,
)
    requires
        call_ensures(
            Entry::<EntryValid, STATE>::entry_match_no_index,
            (&e, &Filter::Eq(attr, value)),
            equal,
        ),
        call_ensures(
            Entry::<EntryValid, STATE>::entry_match_no_index,
            (&e, &Filter::Pres(attr)),
            present,
        ),
    ensures
        equal <==> e@.attrs.contains_key(attr@) && exists|i: int|
            0 <= i < e@.attrs[attr@].len() && #[trigger] e@.attrs[attr@][i] == value@,
        present <==> e@.attrs.contains_key(attr@),
{
}

/// A disjunction matches just when one of its filters does, whichever it is.
pub proof fn law_match_of_a_disjunction<STATE>(
    e: Entry<EntryValid, STATE>,
    l: Vec<Filter>,
    r: bool,
    answers: Seq<bool>,
)
    requires
        call_ensures(
            Entry::<EntryValid, STATE>::entry_match_no_index,
            (&e, &Filter::Or(l)),
            r,
        ),
        answers.len() == l@.len(),
        forall|i: int|
            0 <= i < l@.len() ==> call_ensures(
                Entry::<EntryValid, STATE>::entry_match_no_index,
                (&e, &#[trigger] l@[i]),
                answers[i],
            ),
    ensures
        r <==> exists|i: int| 0 <= i < answers.len() && #[trigger] answers[i],
{
    law_or(l, e@.attrs);
    assert forall|i: int| 0 <= i < l@.len() implies answers[i] == filter::matches(
        #[trigger] l@[i],
        e@.attrs,
    ) by {}
    if r {
        let i = choose|i: int| 0 <= i < l@.len() && filter::matches(#[trigger] l@[i], e@.attrs);
        assert(answers[i]);
    }
    if exists|i: int| 0 <= i < answers.len() && #[trigger] answers[i] {
        let i = choose|i: int| 0 <= i < answers.len() && #[trigger] answers[i];
        assert(filter::matches(l@[i], e@.attrs));
    }
}

/// A conjunction matches just when all of its filters do.
pub proof fn law_match_of_a_conjunction<STATE>(
    e: Entry<EntryValid, STATE>,
    l: Vec<Filter>,
    r: bool,
    answers: Seq<bool>,
)
    requires
        call_ensures(
            Entry::<EntryValid, STATE>::entry_match_no_index,
            (&e, &Filter::And(l)),
            r,
        ),
        answers.len() == l@.len(),
        forall|i: int|
            0 <= i < l@.len() ==> call_ensures(
                Entry::<EntryValid, STATE>::entry_match_no_index,
                (&e, &#[trigger] l@[i]),
                answers[i],
            ),
    ensures
        r <==> forall|i: int| 0 <= i < answers.len() ==> #[trigger] answers[i],
{
    filter::lemma_and(l, e@.attrs);
    assert forall|i: int| 0 <= i < l@.len() implies answers[i] == filter::matches(
        #[trigger] l@[i],
        e@.attrs,
    ) by {}
    if r {
        assert forall|i: int| 0 <= i < answers.len() implies #[trigger] answers[i] by {
            assert(filter::matches(l@[i], e@.attrs));
        }
    }
    if forall|i: int| 0 <= i < answers.len() ==> #[trigger] answers[i] {
        assert forall|i: int| 0 <= i < l@.len() implies filter::matches(
            #[trigger] l@[i],
            e@.attrs,
        ) by {
            assert(answers[i]);
        }
    }
}

/// A negation matches just when its filter does not.
pub proof fn law_match_of_a_negation<STATE>(
    e: Entry<EntryValid, STATE>,
    f: Box<Filter>,
    r: bool,
    answer: bool,
)
    requires
        call_ensures(
            Entry::<EntryValid, STATE>::entry_match_no_index,
            (&e, &Filter::Not(f)),
            r,
        ),
        call_ensures(Entry::<EntryValid, STATE>::entry_match_no_index, (&e, &*f), answer),
    ensures
        r == !answer,
{
    reveal_with_fuel(filter::matches, 2);
}

/// A disjunction matches just when one of its filters does.
pub proof fn law_or(l: Vec<Filter>, m: crate::attrs::Attrs)
    ensures
        filter::matches(Filter::Or(l), m) <==> exists|i: int|
            0 <= i < l@.len() && filter::matches(#[trigger] l@[i], m),
{
    reveal_with_fuel(filter::matches, 2);
    let f = Filter::Or(l);
    assert(f->Or_0 == l);
}

/// The negation of a disjunction matches just when the conjunction of the negations does.
pub proof fn law_negated_disjunction(l: Vec<Filter>, negated: Vec<Filter>, m: crate::attrs::Attrs)
    requires
        negated@.len() == l@.len(),
        forall|i: int|
            0 <= i < l@.len() ==> #[trigger] negated@[i] == Filter::Not(Box::new(l@[i])),
    ensures
        filter::matches(Filter::Not(Box::new(Filter::Or(l))), m) <==> filter::matches(
            Filter::And(negated),
            m,
        ),
{
    reveal_with_fuel(filter::matches, 2);
    law_or(l, m);
    filter::lemma_and(negated, m);
    let f = Filter::Not(Box::new(Filter::Or(l)));
    assert(filter::matches(f, m) == !filter::matches(Filter::Or(l), m));
    assert forall|i: int| 0 <= i < l@.len() implies filter::matches(#[trigger] negated@[i], m)
        == !filter::matches(l@[i], m) by {}
    if filter::matches(Filter::And(negated), m) {
        assert forall|i: int| 0 <= i < l@.len() implies !filter::matches(#[trigger] l@[i], m) by {
            assert(filter::matches(negated@[i], m));
        }
    }
}

/// A filter for a value or an attribute can be evaluated, and one for a substring cannot. A
/// negation can be if its filter can.
pub proof fn law_evaluable_conditions<STATE>(
    e: Entry<EntryValid, STATE>,
    attr: String,
    value: String,
    f: Box<Filter>,
    equal: bool,
    present: bool,
    substring: bool,
    negation: bool,
    inner: bool,
)
    requires
        call_ensures(
            Entry::<EntryValid, STATE>::is_evaluable,
            (&e, &Filter::Eq(attr, value)),
            equal,
        ),
        call_ensures(Entry::<EntryValid, STATE>::is_evaluable, (&e, &Filter::Pres(attr)), present),
        call_ensures(
            Entry::<EntryValid, STATE>::is_evaluable,
            (&e, &Filter::Sub(attr, value)),
            substring,
        ),
        call_ensures(Entry::<EntryValid, STATE>::is_evaluable, (&e, &Filter::Not(f)), negation),
        call_ensures(Entry::<EntryValid, STATE>::is_evaluable, (&e, &*f), inner),
    ensures
        equal,
        present,
        !substring,
        negation == inner,
{
    reveal_with_fuel(filter::evaluable, 2);
}

/// A disjunction or a conjunction can be evaluated just when each of its filters can, up to the
/// first by which the answer is settled.
pub proof fn law_evaluable_lists<STATE>(
    e: Entry<EntryValid, STATE>,
    l: Vec<Filter>,
    or: bool,
    and: bool,
    evaluable: Seq<bool>,
    answers: Seq<bool>,
)
    requires
        call_ensures(Entry::<EntryValid, STATE>::is_evaluable, (&e, &Filter::Or(l)), or),
        call_ensures(Entry::<EntryValid, STATE>::is_evaluable, (&e, &Filter::And(l)), and),
        answers.len() == l@.len(),
        evaluable.len() == l@.len(),
        forall|i: int|
            0 <= i < l@.len() ==> call_ensures(
                Entry::<EntryValid, STATE>::is_evaluable,
                (&e, &#[trigger] l@[i]),
                evaluable[i],
            ),
        forall|i: int|
            0 <= i < l@.len() ==> call_ensures(
                Entry::<EntryValid, STATE>::entry_match_no_index,
                (&e, &#[trigger] l@[i]),
                answers[i],
            ),
    ensures
        or <==> forall|i: int|
            0 <= i < l@.len() && (forall|j: int| 0 <= j < i ==> !#[trigger] answers[j])
                ==> #[trigger] evaluable[i],
        and <==> forall|i: int|
            0 <= i < l@.len() && (forall|j: int| 0 <= j < i ==> #[trigger] answers[j])
                ==> #[trigger] evaluable[i],
{
    let m = e@.attrs;
    assert forall|i: int| 0 <= i < l@.len() implies answers[i] == filter::matches(
        #[trigger] l@[i],
        m,
    ) && evaluable[i] == filter::evaluable(l@[i], m) by {}
    reveal_with_fuel(filter::evaluable, 2);
    let (f, g) = (Filter::Or(l), Filter::And(l));
    assert(f->Or_0 == l && g->And_0 == l);
    if or {
        assert forall|i: int|
            0 <= i < l@.len() && (forall|j: int| 0 <= j < i ==> !#[trigger] answers[j])
            implies #[trigger] evaluable[i] by {
            assert forall|j: int| 0 <= j < i implies !filter::matches(#[trigger] l@[j], m) by {
                assert(!answers[j]);
            }
            assert(filter::evaluable(l@[i], m));
        }
    }
    if forall|i: int|
        0 <= i < l@.len() && (forall|j: int| 0 <= j < i ==> !#[trigger] answers[j])
            ==> #[trigger] evaluable[i] {
        assert forall|i: int|
            0 <= i < l@.len() && (forall|j: int|
                0 <= j < i ==> !filter::matches(#[trigger] l@[j], m)) implies filter::evaluable(
            #[trigger] l@[i],
            m,
        ) by {
            assert forall|j: int| 0 <= j < i implies !#[trigger] answers[j] by {
                assert(!filter::matches(l@[j], m));
            }
            assert(evaluable[i]);
        }
    }
    if and {
        assert forall|i: int|
            0 <= i < l@.len() && (forall|j: int| 0 <= j < i ==> #[trigger] answers[j])
            implies #[trigger] evaluable[i] by {
            assert forall|j: int| 0 <= j < i implies filter::matches(#[trigger] l@[j], m) by {
                assert(answers[j]);
            }
            assert(filter::evaluable(l@[i], m));
        }
    }
    if forall|i: int|
        0 <= i < l@.len() && (forall|j: int| 0 <= j < i ==> #[trigger] answers[j])
            ==> #[trigger] evaluable[i] {
        assert forall|i: int|
            0 <= i < l@.len() && (forall|j: int|
                0 <= j < i ==> filter::matches(#[trigger] l@[j], m)) implies filter::evaluable(
            #[trigger] l@[i],
            m,
        ) by {
            assert forall|j: int| 0 <= j < i implies #[trigger] answers[j] by {
                assert(filter::matches(l@[j], m));
            }
            assert(evaluable[i]);
        }
    }
}

/// There is a filter of attributes just when the entry has every one of them, wherever it
/// stands in the list.
pub proof fn law_filter_needs_all_attributes<STATE>(
    e: Entry<EntryValid, STATE>,
    names: Vec<String>,
    r: Option<Filter>,
)
    requires
        call_ensures(Entry::<EntryValid, STATE>::filter_from_attrs, (&e, &names), r),
    ensures
        r is Some <==> forall|i: int|
            0 <= i < names@.len() ==> e@.attrs.contains_key((#[trigger] names@[i])@),
{
    let s = values::strings(names@);
    if r is Some {
        assert forall|i: int| 0 <= i < names@.len() implies e@.attrs.contains_key(
            (#[trigger] names@[i])@,
        ) by {
            assert(s[i] == names@[i]@);
        }
    }
    if forall|i: int| 0 <= i < names@.len() ==> e@.attrs.contains_key((#[trigger] names@[i])@) {
        assert forall|i: int| 0 <= i < s.len() implies e@.attrs.contains_key(#[trigger] s[i]) by {
            assert(s[i] == names@[i]@);
        }
    }
}

/// The filter of one attribute is the conjunction of conditions on its values, one for each, in
/// their order. That of no attribute is the empty conjunction.
pub proof fn law_filter_of_one_attribute<STATE>(
    e: Entry<EntryValid, STATE>,
    names: Vec<String>,
    f: Filter,
)
    requires
        call_ensures(Entry::<EntryValid, STATE>::filter_from_attrs, (&e, &names), Some(f)),
        names@.len() <= 1,
    ensures
        f matches Filter::And(l) && if names@.len() == 0 {
            l@.len() == 0
        } else {
            &&& l@.len() == e@.attrs[names@[0]@].len()
            &&& forall|i: int|
                0 <= i < l@.len() ==> (#[trigger] l@[i] matches Filter::Eq(attr, value) && attr@
                    == names@[0]@ && value@ == e@.attrs[names@[0]@][i])
        },
{
    let s = values::strings(names@);
    if names@.len() == 1 {
        assert(s.drop_last() =~= Seq::empty());
        assert(s.last() == names@[0]@);
        let pairs = matching::all_pairs(e@.attrs, s);
        reveal_with_fuel(matching::all_pairs, 2);
        assert(pairs =~= matching::pairs_of(names@[0]@, e@.attrs[names@[0]@]));
    }
}

/// The filter of a list of attributes is that of its first part followed by that of the second,
/// wherever the list is cut.
pub proof fn law_filter_in_two_parts<STATE>(
    e: Entry<EntryValid, STATE>,
    first: Vec<String>,
    second: Vec<String>,
    all: Vec<String>,
    a: Vec<Filter>,
    b: Vec<Filter>,
    f: Filter,
)
    requires
        all@.len() == first@.len() + second@.len(),
        forall|i: int| 0 <= i < first@.len() ==> (#[trigger] all@[i])@ == first@[i]@,
        forall|i: int|
            0 <= i < second@.len() ==> all@[first@.len() + i]@ == (#[trigger] second@[i])@,
        call_ensures(
            Entry::<EntryValid, STATE>::filter_from_attrs,
            (&e, &first),
            Some(Filter::And(a)),
        ),
        call_ensures(
            Entry::<EntryValid, STATE>::filter_from_attrs,
            (&e, &second),
            Some(Filter::And(b)),
        ),
        call_ensures(Entry::<EntryValid, STATE>::filter_from_attrs, (&e, &all), Some(f)),
    ensures
        f matches Filter::And(l) && l@.len() == a@.len() + b@.len() && (forall|i: int|
            0 <= i < l@.len() ==> {
                let part = if i < a@.len() {
                    a@[i]
                } else {
                    b@[i - a@.len()]
                };
                &&& #[trigger] l@[i] matches Filter::Eq(attr, value)
                &&& part matches Filter::Eq(part_attr, part_value)
                &&& attr@ == part_attr@
                &&& value@ == part_value@
            }),
{
    let (s, t, u) = (
        values::strings(first@),
        values::strings(second@),
        values::strings(all@),
    );
    let n = first@.len() as int;
    assert forall|i: int| 0 <= i < u.len() implies u[i] == (s + t)[i] by {
        assert(u[i] == all@[i]@);
        if i < n {
            assert(s[i] == first@[i]@);
        } else {
            let j = i - n;
            assert(t[j] == second@[j]@);
            assert(all@[n + j]@ == second@[j]@);
        }
    }
    assert(u =~= s + t);
    lemma_pairs_in_two_parts(e@.attrs, s, t);
    let (p, q) = (matching::all_pairs(e@.attrs, s), matching::all_pairs(e@.attrs, t));
    let w = matching::all_pairs(e@.attrs, u);
    if let Filter::And(l) = f {
        assert forall|i: int| 0 <= i < l@.len() implies {
            let part = if i < a@.len() {
                a@[i]
            } else {
                b@[i - a@.len()]
            };
            &&& #[trigger] l@[i] matches Filter::Eq(attr, value)
            &&& part matches Filter::Eq(part_attr, part_value)
            &&& attr@ == part_attr@
            &&& value@ == part_value@
        } by {
            if i < a@.len() {
                assert(w[i] == p[i]);
                assert(a@[i] is Eq);
            } else {
                assert(w[i] == q[i - p.len()]);
                assert(b@[i - a@.len()] is Eq);
            }
        }
    }
}

/// What is asked for with two lists of names is asked for with both.
proof fn lemma_pairs_in_two_parts(
    m: crate::attrs::Attrs,
    s: Seq<Seq<char>>,
    t: Seq<Seq<char>>,
)
    ensures
        matching::all_pairs(m, s + t) == matching::all_pairs(m, s) + matching::all_pairs(m, t),
    decreases t.len(),
{
    let u = s + t;
    if t.len() == 0 {
        assert(u =~= s);
        assert(matching::all_pairs(m, s) =~= matching::all_pairs(m, s) + matching::all_pairs(m, t));
    } else {
        lemma_pairs_in_two_parts(m, s, t.drop_last());
        assert(u.drop_last() =~= s + t.drop_last());
        assert(u.last() == t.last());
        assert(matching::all_pairs(m, u) =~= matching::all_pairs(m, s) + matching::all_pairs(m, t));
    }
}

/// The filter made of attributes of an entry matches another entry just when that one has,
/// in each of these attributes, every value that the first has there. It matches the first.
pub proof fn law_filter_of_an_entry<STATE, OTHER>(
    e: Entry<EntryValid, STATE>,
    names: Vec<String>,
    f: Filter,
    other: Entry<EntryValid, OTHER>,
    r: bool,
    own: bool,
)
    requires
        call_ensures(Entry::<EntryValid, STATE>::filter_from_attrs, (&e, &names), Some(f)),
        call_ensures(Entry::<EntryValid, OTHER>::entry_match_no_index, (&other, &f), r),
        call_ensures(Entry::<EntryValid, STATE>::entry_match_no_index, (&e, &f), own),
    ensures
        own,
        r <==> forall|i: int, v: Seq<char>|
            0 <= i < names@.len() && #[trigger] e@.attrs[(#[trigger] names@[i])@].contains(v)
                ==> other@.attrs.contains_key(names@[i]@) && other@.attrs[names@[i]@].contains(v),
{
    let (m, n) = (e@.attrs, other@.attrs);
    let s = values::strings(names@);
    if let Filter::And(l) = f {
        laws::law_own_filter_matches(m, s, l);
        laws::law_filter_asks_for_values(m, s, l, n);
        assert forall|i: int| 0 <= i < names@.len() implies m.contains_key(
            (#[trigger] names@[i])@,
        ) by {
            assert(s[i] == names@[i]@);
        }
        if r {
            assert forall|i: int, v: Seq<char>|
                0 <= i < names@.len() && #[trigger] m[(#[trigger] names@[i])@].contains(v)
                implies n.contains_key(names@[i]@) && n[names@[i]@].contains(v) by {
                assert(s[i] == names@[i]@);
                assert(filter::has_value(m, s[i], v));
                assert(filter::has_value(n, s[i], v));
            }
        }
        if forall|i: int, v: Seq<char>|
            0 <= i < names@.len() && #[trigger] m[(#[trigger] names@[i])@].contains(v)
                ==> n.contains_key(names@[i]@) && n[names@[i]@].contains(v) {
            assert forall|i: int, value: Seq<char>|
                0 <= i < s.len() && #[trigger] filter::has_value(
                    m,
                    #[trigger] s[i],
                    value,
                ) implies filter::has_value(n, s[i], value) by {
                assert(s[i] == names@[i]@);
                assert(m[names@[i]@].contains(value));
            }
        }
    }
}

} // verus!
