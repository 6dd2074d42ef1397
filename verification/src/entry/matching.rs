//! Entries and filters.

use vstd::prelude::*;

use crate::attrs;
use crate::attrs::Attrs;
use crate::entry::{Entry, EntryValid};
use crate::filter;
use crate::filter::Filter;
use crate::values;

verus! {

/// The attributes named in `names` are all there.
pub open spec fn has_all(m: Attrs, names: Seq<Seq<char>>) -> bool {
    forall|i: int| 0 <= i < names.len() ==> m.contains_key(#[trigger] names[i])
}

/// The name `attr` with each of `list`.
pub open spec fn pairs_of(attr: Seq<char>, list: Seq<Seq<char>>) -> Seq<(Seq<char>, Seq<char>)> {
    list.map_values(|value: Seq<char>| (attr, value))
}

/// Each of `names` with each of its values, in the order of `names` and of the values.
pub open spec fn all_pairs(m: Attrs, names: Seq<Seq<char>>) -> Seq<(Seq<char>, Seq<char>)>
    decreases names.len(),
{
    if names.len() == 0 {
        Seq::empty()
    } else {
        all_pairs(m, names.drop_last()) + pairs_of(names.last(), m[names.last()])
    }
}

/// The filters ask for the values of `pairs`, one by one.
pub open spec fn asks_for(l: Seq<Filter>, pairs: Seq<(Seq<char>, Seq<char>)>) -> bool {
    &&& l.len() == pairs.len()
    &&& forall|i: int|
        0 <= i < l.len() ==> {
            &&& #[trigger] l[i] matches Filter::Eq(attr, value)
            &&& (attr@, value@) == pairs[i]
        }
}

impl<STATE> Entry<EntryValid, STATE> {
    /// Tells whether a filter matches the entry. The filter is evaluated from left to right,
    /// as far as is needed, and no substring condition may be met on the way.
    pub fn entry_match_no_index(&self, filter: &Filter) -> (r: bool)
        requires
            filter::evaluable(*filter, self@.attrs),
        ensures
            r == filter::matches(*filter, self@.attrs),
        decreases filter,
    {
        match filter {
            Filter::Eq(attr, value) => self.attribute_equality(attr.as_str(), value.as_str()),
            Filter::Sub(_, _) => vstd::pervasive::unreached(),
            Filter::Pres(attr) => self.attribute_pres(attr.as_str()),
            Filter::Or(l) => {
                for i in 0..l.len()
                    invariant
                        *filter == Filter::Or(*l),
                        filter::evaluable(*filter, self@.attrs),
                        forall|j: int|
                            0 <= j < i ==> !filter::matches(#[trigger] l@[j], self@.attrs),
                {
                    proof {
                        reveal_with_fuel(filter::evaluable, 2);
                        assert(decreases_to!(filter => filter->Or_0));
                    }
                    if self.entry_match_no_index(&l[i]) {
                        return true;
                    }
                }
                false
            },
            Filter::And(l) => {
                for i in 0..l.len()
                    invariant
                        *filter == Filter::And(*l),
                        filter::evaluable(*filter, self@.attrs),
                        forall|j: int|
                            0 <= j < i ==> filter::matches(#[trigger] l@[j], self@.attrs),
                {
                    proof {
                        reveal_with_fuel(filter::evaluable, 2);
                        assert(decreases_to!(filter => filter->And_0));
                    }
                    if !self.entry_match_no_index(&l[i]) {
                        return false;
                    }
                }
                true
            },
            Filter::Not(f) => !self.entry_match_no_index(f),
        }
    }

    /// Tells whether a filter can be evaluated on the entry: whether no substring condition is
    /// met on the way from left to right, as far as is needed.
    pub fn is_evaluable(&self, filter: &Filter) -> (r: bool)
        ensures
            r == filter::evaluable(*filter, self@.attrs),
        decreases filter,
    {
        match filter {
            Filter::Eq(_, _) => true,
            Filter::Sub(_, _) => false,
            Filter::Pres(_) => true,
            Filter::Or(l) => {
                for i in 0..l.len()
                    invariant
                        *filter == Filter::Or(*l),
                        forall|j: int|
                            0 <= j < i ==> !filter::matches(#[trigger] l@[j], self@.attrs),
                        forall|j: int|
                            0 <= j < i ==> filter::evaluable(#[trigger] l@[j], self@.attrs),
                {
                    proof {
                        reveal_with_fuel(filter::evaluable, 2);
                        assert(decreases_to!(filter => filter->Or_0));
                    }
                    if !self.is_evaluable(&l[i]) {
                        return false;
                    }
                    if self.entry_match_no_index(&l[i]) {
                        return true;
                    }
                }
                true
            },
            Filter::And(l) => {
                for i in 0..l.len()
                    invariant
                        *filter == Filter::And(*l),
                        forall|j: int|
                            0 <= j < i ==> filter::matches(#[trigger] l@[j], self@.attrs),
                        forall|j: int|
                            0 <= j < i ==> filter::evaluable(#[trigger] l@[j], self@.attrs),
                {
                    proof {
                        reveal_with_fuel(filter::evaluable, 2);
                        assert(decreases_to!(filter => filter->And_0));
                    }
                    if !self.is_evaluable(&l[i]) {
                        return false;
                    }
                    if !self.entry_match_no_index(&l[i]) {
                        return true;
                    }
                }
                true
            },
            Filter::Not(f) => self.is_evaluable(f),
        }
    }

    /// The filter that asks for all values that the entry has in the given attributes. There
    /// is none if the entry does not have them all.
    pub fn filter_from_attrs(&self, attrs: &Vec<String>) -> (r: Option<Filter>)
        ensures
            r is Some <==> has_all(self@.attrs, values::strings(attrs@)),
            r matches Some(f) ==> {
                &&& f matches Filter::And(l)
                &&& asks_for(l@, all_pairs(self@.attrs, values::strings(attrs@)))
            },
    {
        let ghost m = self@.attrs;
        let ghost names = values::strings(attrs@);
        let mut eq_filters: Vec<Filter> = Vec::new();
        for i in 0..attrs.len()
            invariant
                m == self@.attrs,
                names == values::strings(attrs@),
                forall|j: int| 0 <= j < i ==> m.contains_key(#[trigger] names[j]),
                asks_for(eq_filters@, all_pairs(m, names.take(i as int))),
        {
            let attr = &attrs[i];
            assert(names[i as int] == attr@);
            match self.get_ava(attr) {
                Some(list) => {
                    let ghost before = all_pairs(m, names.take(i as int));
                    let ghost pairs = pairs_of(attr@, m[attr@]);
                    for j in 0..list.len()
                        invariant
                            pairs == pairs_of(attr@, values::strings(list@)),
                            asks_for(eq_filters@, before + pairs.take(j as int)),
                    {
                        let value = &list[j];
                        assert(pairs[j as int] == (attr@, value@));
                        assert(before + pairs.take(j + 1) =~= (before + pairs.take(j as int)).push(
                            (attr@, value@),
                        ));
                        eq_filters.push(Filter::Eq(attr.clone(), value.clone()));
                    }
                    proof {
                        assert(pairs.take(pairs.len() as int) =~= pairs);
                        let t = names.take(i + 1);
                        assert(t.drop_last() =~= names.take(i as int));
                        assert(t.last() == attr@);
                    }
                },
                None => {
                    return None;
                },
            }
        }
        assert(names.take(names.len() as int) =~= names);
        Some(Filter::And(eq_filters))
    }
}

} // verus!
