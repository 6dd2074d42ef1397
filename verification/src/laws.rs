//! What holds of entries, filters and modifications taken together.

use vstd::prelude::*;

use crate::attrs;
use crate::attrs::{Attrs, Ava};
use crate::entry::matching;
use crate::entry::modlist;
use crate::entry::validation;
use crate::entry::{Entry, EntryInvalid, EntryValid};
use crate::filter;
use crate::filter::Filter;
use crate::modify;
use crate::modify::ModifyView;
use crate::schema;
use crate::schema::{SchemaAttribute, SchemaClass, SchemaError, SchemaReadTransaction, Syntax};
use crate::values;

pub mod asserting;
pub mod changes;
pub mod data;
pub mod exchange;
pub mod filters;
pub mod validity;

verus! {

/// Attributes of a finite number have a listing: every one of them occurs in it once, in
/// ascending order of the names. There is no other such list.
pub proof fn law_listing(m: Attrs)
    requires
        m.dom().finite(),
    ensures
        attrs::lists(attrs::listing(m), m),
        forall|s: Seq<Ava>| #[trigger] attrs::lists(s, m) ==> s == attrs::listing(m),
    decreases m.dom().len(),
{
    if m.dom().is_empty() {
        let s = Seq::<Ava>::empty();
        assert forall|k: Seq<char>| !m.contains_key(k) by {
            assert(!m.dom().contains(k));
        }
        assert(attrs::lists(s, m));
    } else {
        let key = m.dom().choose();
        let n = m.remove(key);
        assert(n.dom() =~= m.dom().remove(key));
        law_listing(n);
        let t = attrs::listing(n);
        let names = attrs::names_of(t);
        if names.contains(key) {
            let i = names.index_of(key);
            assert(t[i].0 == key);
            assert(n.contains_key(t[i].0));
        }
        values::lemma_insert_ascending(names, key);
        let p = values::place(names, key);
        let s = t.insert(p, (key, m[key]));
        assert(attrs::names_of(s) =~= names.insert(p, key));
        assert forall|i: int| 0 <= i < s.len() implies m.contains_key((#[trigger] s[i]).0)
            && m[s[i].0] == s[i].1 by {
            if i != p {
                let j = if i < p { i } else { i - 1 };
                assert(s[i] == t[j]);
                assert(n.contains_key(t[j].0));
            }
        }
        assert forall|k: Seq<char>| #[trigger] m.contains_key(k) implies attrs::names_of(
            s,
        ).contains(k) by {
            if k == key {
                assert(attrs::names_of(s)[p] == k);
            } else {
                assert(n.contains_key(k));
                let j = names.index_of(k);
                assert(names.contains(k));
                assert(attrs::names_of(s)[if j < p { j } else { j + 1 }] == k);
            }
        }
        assert(attrs::lists(s, m));
    }
    assert forall|s: Seq<Ava>| #[trigger] attrs::lists(s, m) implies s == attrs::listing(m) by {
        attrs::lemma_listing(s, m);
    }
}

/// `m` and `n` do not differ but in the attribute `attr`.
pub open spec fn same_but(m: Attrs, n: Attrs, attr: Seq<char>) -> bool {
    forall|k: Seq<char>|
        k != attr ==> (#[trigger] n.contains_key(k) <==> m.contains_key(k)) && (m.contains_key(k)
            ==> n[k] == m[k])
}

/// A value that was added is there. What was there before is still there, and nothing else
/// is new. Other attributes are as they were.
pub proof fn law_added_value_is_there(m: Attrs, attr: Seq<char>, value: Seq<char>)
    ensures
        modify::with_added(m, attr, value).contains_key(attr),
        forall|v: Seq<char>| #[trigger]
            filter::has_value(modify::with_added(m, attr, value), attr, v) <==> v == value
                || filter::has_value(m, attr, v),
        same_but(m, modify::with_added(m, attr, value), attr),
{
    let n = modify::with_added(m, attr, value);
    if m.contains_key(attr) {
        let s = m[attr];
        let t = n[attr];
        values::lemma_with_value(s, value);
        assert forall|v: Seq<char>| #[trigger] t.contains(v) <==> v == value || s.contains(v) by {
            if t != s {
                let i = choose|i: int| 0 <= i <= s.len() && t == #[trigger] s.insert(i, value);
                assert(t[i] == value);
                if s.contains(v) {
                    let j = s.index_of(v);
                    assert(t[if j < i { j } else { j + 1 }] == v);
                }
                if t.contains(v) {
                    let j = t.index_of(v);
                    if j != i {
                        assert(s[if j < i { j } else { j - 1 }] == v);
                    }
                }
            }
        }
    } else {
        assert(n[attr] == seq![value]);
        assert(n[attr][0] == value);
    }
}

/// Adding keeps the values of an attribute sorted and free of duplicates.
pub proof fn law_add_keeps_ascending(m: Attrs, attr: Seq<char>, value: Seq<char>)
    requires
        m.contains_key(attr) ==> values::ascending(m[attr]),
    ensures
        values::ascending(modify::with_added(m, attr, value)[attr]),
{
    if m.contains_key(attr) {
        let s = m[attr];
        values::lemma_ascending_is_sorted(s);
        if !s.contains(value) {
            values::lemma_insert_ascending(s, value);
        }
    }
}

/// Adding a value twice is the same as adding it once, where the values of the attribute are
/// sorted.
pub proof fn law_add_twice(m: Attrs, attr: Seq<char>, value: Seq<char>)
    requires
        m.contains_key(attr) ==> values::sorted(m[attr]),
    ensures
        modify::with_added(modify::with_added(m, attr, value), attr, value) == modify::with_added(
            m,
            attr,
            value,
        ),
{
    let once = modify::with_added(m, attr, value);
    law_added_value_is_there(m, attr, value);
    assert(filter::has_value(once, attr, value));
    if m.contains_key(attr) {
        values::lemma_with_value_sorted(m[attr], value);
    } else {
        assert(once[attr] == seq![value]);
    }
    assert(values::sorted(once[attr]));
    assert(modify::with_added(once, attr, value) =~= once);
}

/// Removing takes away nothing but the value, in whatever order the values are. The attribute
/// stays, and other attributes are as they were.
pub proof fn law_remove_takes_nothing_else(m: Attrs, attr: Seq<char>, value: Seq<char>)
    ensures
        modify::with_removed(m, attr, value).contains_key(attr) <==> m.contains_key(attr),
        forall|v: Seq<char>| #[trigger]
            filter::has_value(modify::with_removed(m, attr, value), attr, v) ==> filter::has_value(
                m,
                attr,
                v,
            ),
        forall|v: Seq<char>|
            v != value && #[trigger] filter::has_value(m, attr, v) ==> filter::has_value(
                modify::with_removed(m, attr, value),
                attr,
                v,
            ),
        same_but(m, modify::with_removed(m, attr, value), attr),
{
    if m.contains_key(attr) {
        let s = m[attr];
        let t = modify::with_removed(m, attr, value)[attr];
        values::lemma_without_value(s, value);
        if t != s {
            let i = choose|i: int|
                0 <= i < s.len() && s[i] == value && t == #[trigger] s.remove(i);
            assert forall|v: Seq<char>| #[trigger] t.contains(v) implies s.contains(v) by {
                let j = t.index_of(v);
                assert(s[if j < i { j } else { j + 1 }] == v);
            }
            assert forall|v: Seq<char>| v != value && #[trigger] s.contains(v) implies t.contains(
                v,
            ) by {
                let j = s.index_of(v);
                assert(t[if j < i { j } else { j - 1 }] == v);
            }
        }
    }
}

/// A value that was removed is gone, where the values of the attribute are sorted and free of
/// duplicates, and they stay so. The other values are still there, and so is the attribute.
/// Other attributes are as they were.
pub proof fn law_removed_value_is_gone(m: Attrs, attr: Seq<char>, value: Seq<char>)
    requires
        m.contains_key(attr) ==> values::ascending(m[attr]),
    ensures
        modify::with_removed(m, attr, value).contains_key(attr) <==> m.contains_key(attr),
        forall|v: Seq<char>| #[trigger]
            filter::has_value(modify::with_removed(m, attr, value), attr, v) <==> v != value
                && filter::has_value(m, attr, v),
        same_but(m, modify::with_removed(m, attr, value), attr),
        m.contains_key(attr) ==> values::ascending(modify::with_removed(m, attr, value)[attr]),
{
    law_remove_takes_nothing_else(m, attr, value);
    if m.contains_key(attr) {
        let s = m[attr];
        let t = modify::with_removed(m, attr, value)[attr];
        values::lemma_ascending_is_sorted(s);
        if s.contains(value) {
            s.index_of_first_ensures(value);
            let i = s.index_of_first(value).unwrap();
            assert(t == s.remove(i));
            if t.contains(value) {
                let j = t.index_of(value);
                assert(s[if j < i { j } else { j + 1 }] == s[i]);
            }
            values::lemma_remove_ascending(s, i);
        }
    }
}

/// Removing a value right after it was added undoes the adding, where the values of the
/// attribute are sorted and the value was not there. An attribute that was not there stays
/// behind with an empty list.
pub proof fn law_remove_undoes_add(m: Attrs, attr: Seq<char>, value: Seq<char>)
    requires
        m.contains_key(attr) ==> values::sorted(m[attr]),
        !filter::has_value(m, attr, value),
    ensures
        modify::with_removed(modify::with_added(m, attr, value), attr, value) == (
        if m.contains_key(attr) {
            m
        } else {
            m.insert(attr, Seq::empty())
        }),
{
    let added = modify::with_added(m, attr, value);
    let n = modify::with_removed(added, attr, value);
    let t = added[attr];
    if m.contains_key(attr) {
        let s = m[attr];
        let p = values::place(s, value);
        values::lemma_place_cuts(s, value);
        values::lemma_with_value_sorted(s, value);
        assert(t == s.insert(p, value));
        assert(t[p] == value);
        values::lemma_remove_any(t, value, p);
        assert(t.remove(p) =~= s);
        assert(n =~= m);
    } else {
        assert(t == seq![value]);
        assert(values::sorted(t));
        assert(t[0] == value);
        values::lemma_remove_any(t, value, 0);
        assert(t.remove(0) =~= Seq::<Seq<char>>::empty());
        assert(n =~= m.insert(attr, Seq::empty()));
    }
}

/// One change keeps the values of all attributes sorted and free of duplicates.
pub proof fn law_modify_keeps_ascending(m: Attrs, x: ModifyView)
    requires
        attrs::all_ascending(m),
    ensures
        attrs::all_ascending(modify::with_modify(m, x)),
{
    match x {
        ModifyView::Present(attr, value) => {
            law_add_keeps_ascending(m, attr, value);
        },
        ModifyView::Removed(attr, value) => {
            law_removed_value_is_gone(m, attr, value);
        },
        ModifyView::Purged(attr) => {},
    }
}

/// Changes keep the values of all attributes sorted and free of duplicates.
pub proof fn law_modlist_keeps_ascending(m: Attrs, xs: Seq<ModifyView>)
    requires
        attrs::all_ascending(m),
    ensures
        attrs::all_ascending(modify::with_modifies(m, xs)),
    decreases xs.len(),
{
    if xs.len() > 0 {
        law_modlist_keeps_ascending(m, xs.drop_last());
        law_modify_keeps_ascending(modify::with_modifies(m, xs.drop_last()), xs.last());
    }
}

/// One change keeps the values of all attributes sorted.
pub proof fn law_modify_keeps_sorted(m: Attrs, x: ModifyView)
    requires
        attrs::all_sorted(m),
    ensures
        attrs::all_sorted(modify::with_modify(m, x)),
{
    match x {
        ModifyView::Present(attr, value) => {
            if m.contains_key(attr) {
                values::lemma_with_value_sorted(m[attr], value);
            }
        },
        ModifyView::Removed(attr, value) => {
            if m.contains_key(attr) {
                let s = m[attr];
                if s.contains(value) {
                    s.index_of_first_ensures(value);
                    values::lemma_remove_sorted(s, s.index_of_first(value).unwrap());
                }
            }
        },
        ModifyView::Purged(attr) => {},
    }
}

/// Changes keep the values of all attributes sorted.
pub proof fn law_modlist_keeps_sorted(m: Attrs, xs: Seq<ModifyView>)
    requires
        attrs::all_sorted(m),
    ensures
        attrs::all_sorted(modify::with_modifies(m, xs)),
    decreases xs.len(),
{
    if xs.len() > 0 {
        law_modlist_keeps_sorted(m, xs.drop_last());
        law_modify_keeps_sorted(modify::with_modifies(m, xs.drop_last()), xs.last());
    }
}

/// A list of no change changes nothing.
pub proof fn law_empty_modlist(m: Attrs)
    ensures
        modify::with_modifies(m, Seq::empty()) == m,
{
}

/// A list of one change is that change.
pub proof fn law_modlist_of_one(m: Attrs, x: ModifyView)
    ensures
        modify::with_modifies(m, seq![x]) == modify::with_modify(m, x),
{
    let xs = seq![x];
    assert(xs.drop_last() =~= Seq::<ModifyView>::empty());
    assert(xs.last() == x);
    law_empty_modlist(m);
}

/// Applying a list of changes in two parts, one after the other, gives what applying the whole
/// list gives, wherever it is cut and in whatever order the values are.
pub proof fn law_modlist_in_two_parts(m: Attrs, xs: Seq<ModifyView>, ys: Seq<ModifyView>)
    ensures
        modify::with_modifies(m, xs + ys) == modify::with_modifies(
            modify::with_modifies(m, xs),
            ys,
        ),
    decreases ys.len(),
{
    let all = xs + ys;
    if ys.len() == 0 {
        assert(all =~= xs);
    } else {
        law_modlist_in_two_parts(m, xs, ys.drop_last());
        assert(all.drop_last() =~= xs + ys.drop_last());
        assert(all.last() == ys.last());
    }
}

/// The attribute that a change is about.
pub open spec fn attribute_of(x: ModifyView) -> Seq<char> {
    match x {
        ModifyView::Present(attr, _) => attr,
        ModifyView::Removed(attr, _) => attr,
        ModifyView::Purged(attr) => attr,
    }
}

/// Changes leave an attribute as it is that none of them is about.
pub proof fn law_modlist_leaves_others(m: Attrs, xs: Seq<ModifyView>, attr: Seq<char>)
    requires
        forall|i: int| 0 <= i < xs.len() ==> attribute_of(#[trigger] xs[i]) != attr,
    ensures
        modify::with_modifies(m, xs).contains_key(attr) <==> m.contains_key(attr),
        m.contains_key(attr) ==> modify::with_modifies(m, xs)[attr] == m[attr],
    decreases xs.len(),
{
    if xs.len() > 0 {
        assert(xs[xs.len() - 1] == xs.last());
        law_modlist_leaves_others(m, xs.drop_last(), attr);
    }
}

/// The change takes `value` out of `attr`, or may do so.
pub open spec fn takes_out(x: ModifyView, attr: Seq<char>, value: Seq<char>) -> bool {
    x == ModifyView::Removed(attr, value) || x == ModifyView::Purged(attr)
}

/// A value that a list of changes adds, and that no later one takes out, is there in the end.
pub proof fn law_present_value_is_there(
    m: Attrs,
    xs: Seq<ModifyView>,
    at: int,
    attr: Seq<char>,
    value: Seq<char>,
)
    requires
        0 <= at < xs.len(),
        xs[at] == ModifyView::Present(attr, value),
        forall|i: int| at < i < xs.len() ==> !takes_out(#[trigger] xs[i], attr, value),
    ensures
        filter::has_value(modify::with_modifies(m, xs), attr, value),
    decreases xs.len(),
{
    let rest = xs.drop_last();
    let k = modify::with_modifies(m, rest);
    let n = modify::with_modifies(m, xs);
    assert(xs[xs.len() - 1] == xs.last());
    if at == xs.len() - 1 {
        law_added_value_is_there(k, attr, value);
        assert(filter::has_value(n, attr, value));
    } else {
        law_present_value_is_there(m, rest, at, attr, value);
        match xs.last() {
            ModifyView::Present(a, v) => {
                law_added_value_is_there(k, a, v);
                assert(filter::has_value(n, a, value) <==> value == v || filter::has_value(
                    k,
                    a,
                    value,
                ));
            },
            ModifyView::Removed(a, v) => {
                law_remove_takes_nothing_else(k, a, v);
                assert(!takes_out(xs.last(), attr, value));
            },
            ModifyView::Purged(a) => {},
        }
    }
}

/// An attribute that a list of changes purges, and to which no later one adds a value, is not
/// there in the end.
pub proof fn law_purged_attribute_is_gone(
    m: Attrs,
    xs: Seq<ModifyView>,
    at: int,
    attr: Seq<char>,
)
    requires
        0 <= at < xs.len(),
        xs[at] == ModifyView::Purged(attr),
        forall|i: int|
            at < i < xs.len() ==> !(#[trigger] xs[i] matches ModifyView::Present(a, _) && a
                == attr),
    ensures
        !modify::with_modifies(m, xs).contains_key(attr),
    decreases xs.len(),
{
    assert(xs[xs.len() - 1] == xs.last());
    if at < xs.len() - 1 {
        law_purged_attribute_is_gone(m, xs.drop_last(), at, attr);
    }
}

/// The filter made of attributes of an entry matches that entry.
pub proof fn law_own_filter_matches(m: Attrs, names: Seq<Seq<char>>, l: Vec<Filter>)
    requires
        matching::has_all(m, names),
        matching::asks_for(l@, matching::all_pairs(m, names)),
    ensures
        filter::evaluable(Filter::And(l), m),
        filter::matches(Filter::And(l), m),
{
    reveal_with_fuel(filter::matches, 2);
    reveal_with_fuel(filter::evaluable, 2);
    lemma_pairs_are_values(m, names);
    let pairs = matching::all_pairs(m, names);
    assert forall|i: int| 0 <= i < l@.len() implies filter::matches(#[trigger] l@[i], m) by {
        assert(filter::has_value(m, pairs[i].0, pairs[i].1));
    }
}

/// The filter made of attributes of an entry matches another entry just when that one has
/// all the values that the first has in these attributes.
pub proof fn law_filter_asks_for_values(
    m: Attrs,
    names: Seq<Seq<char>>,
    l: Vec<Filter>,
    other: Attrs,
)
    requires
        matching::has_all(m, names),
        matching::asks_for(l@, matching::all_pairs(m, names)),
    ensures
        filter::evaluable(Filter::And(l), other),
        filter::matches(Filter::And(l), other) <==> forall|i: int, value: Seq<char>|
            0 <= i < names.len() && #[trigger] filter::has_value(m, #[trigger] names[i], value)
                ==> filter::has_value(other, names[i], value),
{
    reveal_with_fuel(filter::matches, 2);
    reveal_with_fuel(filter::evaluable, 2);
    filter::lemma_and(l, other);
    lemma_pairs_are_values(m, names);
    let pairs = matching::all_pairs(m, names);
    if filter::matches(Filter::And(l), other) {
        assert forall|i: int, value: Seq<char>|
            0 <= i < names.len() && #[trigger] filter::has_value(
                m,
                #[trigger] names[i],
                value,
            ) implies filter::has_value(other, names[i], value) by {
            lemma_values_are_pairs(m, names, i, value);
            let j = pairs.index_of((names[i], value));
            assert(pairs.contains((names[i], value)));
            assert(pairs[j] == (names[i], value));
            assert(filter::matches(l@[j], other));
        }
    }
    if forall|i: int, value: Seq<char>|
        0 <= i < names.len() && #[trigger] filter::has_value(m, #[trigger] names[i], value)
            ==> filter::has_value(other, names[i], value) {
        assert forall|j: int| 0 <= j < l@.len() implies filter::matches(
            #[trigger] l@[j],
            other,
        ) by {
            assert(filter::has_value(m, pairs[j].0, pairs[j].1));
            assert(names.contains(pairs[j].0));
            let i = names.index_of(pairs[j].0);
            assert(names[i] == pairs[j].0);
            assert(filter::has_value(other, names[i], pairs[j].1));
        }
    }
}

/// What is asked for is a value of the entry, in one of the attributes.
proof fn lemma_pairs_are_values(m: Attrs, names: Seq<Seq<char>>)
    requires
        matching::has_all(m, names),
    ensures
        forall|i: int|
            0 <= i < matching::all_pairs(m, names).len() ==> {
                let pair = #[trigger] matching::all_pairs(m, names)[i];
                names.contains(pair.0) && filter::has_value(m, pair.0, pair.1)
            },
    decreases names.len(),
{
    if names.len() > 0 {
        let rest = names.drop_last();
        assert forall|i: int| 0 <= i < rest.len() implies m.contains_key(#[trigger] rest[i]) by {
            assert(names[i] == rest[i]);
        }
        lemma_pairs_are_values(m, rest);
        let before = matching::all_pairs(m, rest);
        let last = names.last();
        assert(names[names.len() - 1] == last);
        let list = m[last];
        assert forall|i: int| 0 <= i < matching::all_pairs(m, names).len() implies {
            let pair = #[trigger] matching::all_pairs(m, names)[i];
            names.contains(pair.0) && filter::has_value(m, pair.0, pair.1)
        } by {
            let pair = matching::all_pairs(m, names)[i];
            if i < before.len() {
                assert(pair == before[i]);
                let j = rest.index_of(pair.0);
                assert(names[j] == pair.0);
            } else {
                assert(pair == (last, list[i - before.len()]));
            }
        }
    }
}

/// A value of the entry in one of the attributes is asked for.
proof fn lemma_values_are_pairs(m: Attrs, names: Seq<Seq<char>>, i: int, value: Seq<char>)
    requires
        0 <= i < names.len(),
        filter::has_value(m, names[i], value),
    ensures
        matching::all_pairs(m, names).contains((names[i], value)),
    decreases names.len(),
{
    let rest = names.drop_last();
    let before = matching::all_pairs(m, rest);
    let all = matching::all_pairs(m, names);
    if i < rest.len() {
        lemma_values_are_pairs(m, rest, i, value);
        let j = before.index_of((names[i], value));
        assert(all[j] == (names[i], value));
    } else {
        let j = m[names[i]].index_of(value);
        assert(all[before.len() + j] == (names[i], value));
    }
}

/// A filter that is negated twice matches what it matches.
pub proof fn law_double_negation(f: Filter, m: Attrs)
    ensures
        filter::matches(Filter::Not(Box::new(Filter::Not(Box::new(f)))), m) == filter::matches(
            f,
            m,
        ),
        filter::evaluable(Filter::Not(Box::new(Filter::Not(Box::new(f)))), m)
            == filter::evaluable(f, m),
{
    reveal_with_fuel(filter::matches, 3);
    reveal_with_fuel(filter::evaluable, 3);
}

/// The sorted form of attributes is one only.
pub proof fn law_sorted_form_is_unique(m: Attrs, n: Attrs, k: Attrs)
    requires
        attrs::sorted_form(m, n),
        attrs::sorted_form(m, k),
    ensures
        n == k,
{
    assert forall|a: Seq<char>| #[trigger] n.contains_key(a) implies n[a] == k[a] by {
        assert(m.contains_key(a));
        values::lemma_sorted_unique(n[a], k[a]);
    }
    assert(n =~= k);
}

/// Attributes with sorted values are their own sorted form: what a client receives of such an
/// entry and sends back makes the same entry.
pub proof fn law_sorted_entry_comes_back(m: Attrs, n: Attrs)
    requires
        attrs::all_sorted(m),
        attrs::sorted_form(m, n),
    ensures
        n == m,
{
    assert(attrs::sorted_form(m, m));
    law_sorted_form_is_unique(m, n, m);
}

/// What becomes of an attribute to which values are added one after the other.
proof fn lemma_presents(m: Attrs, attr: Seq<char>, list: Seq<Seq<char>>, n: Attrs)
    requires
        n == modify::with_modifies(m, modlist::presents(attr, list)),
    ensures
        same_but(m, n, attr),
        n.contains_key(attr) <==> m.contains_key(attr) || list.len() > 0,
        forall|v: Seq<char>| #[trigger]
            filter::has_value(n, attr, v) <==> filter::has_value(m, attr, v) || list.contains(v),
        !m.contains_key(attr) && list.len() > 0 ==> values::ascending(n[attr]),
    decreases list.len(),
{
    let xs = modlist::presents(attr, list);
    if list.len() > 0 {
        let k = modify::with_modifies(m, xs.drop_last());
        let rest = list.drop_last();
        let last = list.last();
        assert(xs.drop_last() =~= modlist::presents(attr, rest));
        assert(xs.last() == ModifyView::Present(attr, last));
        lemma_presents(m, attr, rest, k);
        law_added_value_is_there(k, attr, last);
        assert forall|v: Seq<char>| #[trigger] filter::has_value(n, attr, v) <==> filter::has_value(
            m,
            attr,
            v,
        ) || list.contains(v) by {
            assert(filter::has_value(k, attr, v) <==> filter::has_value(m, attr, v)
                || rest.contains(v));
            if rest.contains(v) {
                assert(list[rest.index_of(v)] == v);
            }
            if list.contains(v) && v != last {
                assert(rest[list.index_of(v)] == v);
            }
            assert(list[list.len() - 1] == last);
        }
        if !m.contains_key(attr) {
            law_add_keeps_ascending(k, attr, last);
        }
    }
}

/// What an entry `t` becomes when it is given the values of the attribute `attr` of an entry
/// `m`: in an attribute that can have several values they are added; in one that can have
/// one value only they replace what was there.
pub open spec fn given_values(
    m: Attrs,
    attr: Seq<char>,
    multivalue: bool,
    t: Attrs,
    n: Attrs,
) -> bool {
    &&& n.contains_key(attr) <==> m[attr].len() > 0 || (multivalue && t.contains_key(attr))
    &&& forall|v: Seq<char>| #[trigger]
        filter::has_value(n, attr, v) <==> m[attr].contains(v) || (multivalue && filter::has_value(
            t,
            attr,
            v,
        ))
    &&& !multivalue && m[attr].len() > 0 ==> values::ascending(n[attr])
}

/// What an entry becomes by the changes for one attribute.
proof fn lemma_mods_for(m: Attrs, ava: Ava, multivalue: bool, t: Attrs, n: Attrs)
    requires
        m.contains_key(ava.0),
        m[ava.0] == ava.1,
        n == modify::with_modifies(t, modlist::mods_for(ava, multivalue)),
    ensures
        same_but(t, n, ava.0),
        given_values(m, ava.0, multivalue, t, n),
{
    let (attr, list) = ava;
    if multivalue {
        lemma_presents(t, attr, list, n);
    } else {
        let purge = seq![ModifyView::Purged(attr)];
        let k = t.remove(attr);
        law_modlist_of_one(t, ModifyView::Purged(attr));
        law_modlist_in_two_parts(t, purge, modlist::presents(attr, list));
        lemma_presents(k, attr, list, n);
        assert forall|v: Seq<char>| #[trigger]
            filter::has_value(n, attr, v) <==> list.contains(v) by {
            assert(!filter::has_value(k, attr, v));
        }
    }
}

/// What an entry becomes by the changes for the first attributes of a list.
proof fn lemma_assert_mods<S>(
    m: Attrs,
    avas: Seq<Ava>,
    schema: Map<Seq<char>, SchemaAttribute<S>>,
    t: Attrs,
    n: Attrs,
)
    requires
        forall|i: int|
            0 <= i < avas.len() ==> m.contains_key((#[trigger] avas[i]).0) && m[avas[i].0]
                == avas[i].1,
        attrs::names_of(avas).no_duplicates(),
        n == modify::with_modifies(t, modlist::assert_mods(avas, schema)),
    ensures
        forall|k: Seq<char>| #[trigger]
            attrs::names_of(avas).contains(k) ==> given_values(m, k, schema[k].multivalue, t, n),
        forall|k: Seq<char>|
            !#[trigger] attrs::names_of(avas).contains(k) ==> (n.contains_key(k)
                <==> t.contains_key(k)) && (t.contains_key(k) ==> n[k] == t[k]),
    decreases avas.len(),
{
    if avas.len() > 0 {
        let rest = avas.drop_last();
        let last = avas.last();
        assert(avas[avas.len() - 1] == last);
        let names = attrs::names_of(avas);
        let rest_names = attrs::names_of(rest);
        assert(names =~= rest_names.push(last.0));
        let multivalue = schema[last.0].multivalue;
        let k = modify::with_modifies(t, modlist::assert_mods(rest, schema));
        law_modlist_in_two_parts(
            t,
            modlist::assert_mods(rest, schema),
            modlist::mods_for(last, multivalue),
        );
        assert forall|i: int| 0 <= i < rest.len() implies m.contains_key((#[trigger] rest[i]).0)
            && m[rest[i].0] == rest[i].1 by {
            assert(avas[i] == rest[i]);
        }
        assert forall|i: int, j: int|
            0 <= i < rest_names.len() && 0 <= j < rest_names.len() && i != j implies rest_names[i]
            != rest_names[j] by {
            assert(names[i] != names[j]);
        }
        lemma_assert_mods(m, rest, schema, t, k);
        lemma_mods_for(m, last, multivalue, k, n);
        assert(!rest_names.contains(last.0)) by {
            if rest_names.contains(last.0) {
                let i = rest_names.index_of(last.0);
                assert(names[i] == names[names.len() - 1]);
            }
        }
        assert forall|a: Seq<char>| #[trigger] names.contains(a) implies given_values(
            m,
            a,
            schema[a].multivalue,
            t,
            n,
        ) by {
            if a == last.0 {
                assert forall|v: Seq<char>| #[trigger]
                    filter::has_value(n, a, v) <==> m[a].contains(v) || (multivalue
                        && filter::has_value(t, a, v)) by {
                    assert(filter::has_value(k, a, v) == filter::has_value(t, a, v));
                }
            } else {
                let i = names.index_of(a);
                assert(rest_names[i] == a);
                assert(rest_names.contains(a));
                assert(given_values(m, a, schema[a].multivalue, t, k));
                assert forall|v: Seq<char>| #[trigger]
                    filter::has_value(n, a, v) <==> m[a].contains(v) || (schema[a].multivalue
                        && filter::has_value(t, a, v)) by {
                    assert(n.contains_key(a) <==> k.contains_key(a));
                    assert(filter::has_value(k, a, v) == filter::has_value(n, a, v));
                }
                assert(n.contains_key(a) <==> k.contains_key(a));
            }
        }
        assert forall|a: Seq<char>| !#[trigger] names.contains(a) implies (n.contains_key(a)
            <==> t.contains_key(a)) && (t.contains_key(a) ==> n[a] == t[a]) by {
            assert(names[names.len() - 1] == last.0);
            if rest_names.contains(a) {
                assert(names[rest_names.index_of(a)] == a);
            }
            assert(!rest_names.contains(a));
            assert(n.contains_key(a) <==> k.contains_key(a));
        }
    }
}

/// The changes that assert an entry `m`, made in any entry `t`, give it the values of `m`
/// and do nothing else: a value of `m` is there afterwards; in an attribute of `m` that can
/// have several values those of `t` are kept, and in one that can have one value only they
/// are not; an attribute that `m` does not have is as it was.
pub proof fn law_assert_gives_values<S>(
    m: Attrs,
    schema: Map<Seq<char>, SchemaAttribute<S>>,
    t: Attrs,
    n: Attrs,
)
    requires
        attrs::lists(attrs::listing(m), m),
        modlist::all_known(m, schema),
        n == modify::with_modifies(t, modlist::assert_mods(attrs::listing(m), schema)),
    ensures
        forall|k: Seq<char>, v: Seq<char>|
            filter::has_value(m, k, v) ==> #[trigger] filter::has_value(n, k, v),
        forall|k: Seq<char>| #[trigger]
            m.contains_key(k) ==> given_values(m, k, schema[k].multivalue, t, n),
        forall|k: Seq<char>|
            !#[trigger] m.contains_key(k) ==> (n.contains_key(k) <==> t.contains_key(k)) && (
            t.contains_key(k) ==> n[k] == t[k]),
{
    let avas = attrs::listing(m);
    let names = attrs::names_of(avas);
    values::lemma_ascending_is_sorted(names);
    lemma_assert_mods(m, avas, schema, t, n);
    assert forall|k: Seq<char>| #[trigger] m.contains_key(k) <==> names.contains(k) by {
        if names.contains(k) {
            let i = names.index_of(k);
            assert(avas[i].0 == k);
        }
    }
    assert forall|k: Seq<char>, v: Seq<char>| filter::has_value(m, k, v) implies #[trigger]
        filter::has_value(n, k, v) by {
        assert(given_values(m, k, schema[k].multivalue, t, n));
    }
}

/// Asserting an entry on itself changes nothing, where its values are sorted and free of
/// duplicates and every attribute has a value.
pub proof fn law_assert_on_itself<S>(m: Attrs, schema: Map<Seq<char>, SchemaAttribute<S>>)
    requires
        attrs::lists(attrs::listing(m), m),
        modlist::all_known(m, schema),
        attrs::all_ascending(m),
        forall|k: Seq<char>| #[trigger] m.contains_key(k) ==> m[k].len() > 0,
    ensures
        modify::with_modifies(m, modlist::assert_mods(attrs::listing(m), schema)) == m,
{
    let mods = modlist::assert_mods(attrs::listing(m), schema);
    let n = modify::with_modifies(m, mods);
    law_assert_gives_values(m, schema, m, n);
    law_modlist_keeps_ascending(m, mods);
    assert forall|k: Seq<char>| #[trigger] n.contains_key(k) <==> m.contains_key(k) by {
        if m.contains_key(k) {
            assert(given_values(m, k, schema[k].multivalue, m, n));
        }
    }
    assert forall|k: Seq<char>| #[trigger] n.contains_key(k) implies n[k] == m[k] by {
        assert(m.contains_key(k));
        assert(given_values(m, k, schema[k].multivalue, m, n));
        assert forall|v: Seq<char>| #[trigger] n[k].contains(v) <==> m[k].contains(v) by {
            assert(filter::has_value(n, k, v) <==> n[k].contains(v));
        }
        values::lemma_ascending_unique(n[k], m[k]);
    }
    assert(n =~= m);
}

/// What classes require they allow, too.
pub proof fn law_required_is_allowed(
    classes: Map<Seq<char>, SchemaClass>,
    names: Seq<Seq<char>>,
    attr: Seq<char>,
)
    requires
        schema::required(classes, names, attr),
    ensures
        schema::allowed(classes, names, attr),
{
}

/// A valid entry has classes, which are known and each named once, and all that they require. Its
/// attributes are in the schema and allowed by its classes, unless it is of the class
/// `extensibleobject`. The values of those that are in the schema were found good.
pub proof fn law_valid_entry_conforms<S: Syntax, STATE>(
    schema: SchemaReadTransaction<S>,
    e: Entry<EntryInvalid, STATE>,
    n: Attrs,
    ne: Entry<EntryValid, STATE>,
)
    requires
        validation::normal_form(schema.attributes@, e@.attrs, n),
        validation::checkable(schema, n),
        validation::valid_outcome(
            schema,
            e,
            n,
            Ok::<Entry<EntryValid, STATE>, SchemaError>(ne),
        ),
    ensures
        ne@.id == e@.id,
        ne@.attrs.contains_key("class"@),
        schema::classes_valid(schema.classes@, ne@.attrs["class"@]),
        forall|attr: Seq<char>| #[trigger]
            schema::required(schema.classes@, ne@.attrs["class"@], attr)
                ==> ne@.attrs.contains_key(attr),
        forall|attr: Seq<char>| #[trigger]
            ne@.attrs.contains_key(attr) ==> (schema.attributes@.contains_key(attr)
                && schema::allowed(schema.classes@, ne@.attrs["class"@], attr))
                || ne@.attrs["class"@].contains("extensibleobject"@),
        forall|attr: Seq<char>| #[trigger]
            ne@.attrs.contains_key(attr) && schema.attributes@.contains_key(attr)
                ==> schema::may_judge(
                schema.attributes@[attr].syntax,
                ne@.attrs[attr],
                Ok::<(), SchemaError>(()),
            ),
{
    let s = choose|s: Seq<Ava>| #[trigger]
        validation::normal_avas(schema.attributes@, attrs::listing(e@.attrs), s) && n
            == validation::collected(s);
    lemma_collected_finite(s);
    law_listing(n);
    let avas = attrs::listing(n);
    assert forall|attr: Seq<char>| #[trigger] n.contains_key(attr) implies validation::ava_passes(
        schema,
        n["class"@],
        (attr, n[attr]),
    ) by {
        let i = attrs::names_of(avas).index_of(attr);
        assert(attrs::names_of(avas).contains(attr));
        assert(attrs::names_of(avas)[i] == avas[i].0);
        assert(avas[i] == (attr, n[attr]));
    }
}

/// An entry whose names and values the schema leaves as they are is its own normal form.
pub proof fn law_normal_entry_stays<S: Syntax>(
    attributes: Map<Seq<char>, SchemaAttribute<S>>,
    m: Attrs,
    n: Attrs,
)
    requires
        attrs::lists(attrs::listing(m), m),
        forall|k: Seq<char>, r: Seq<char>|
            m.contains_key(k) && #[trigger] schema::may_normalise(attributes["name"@].syntax, k, r)
                ==> r == k,
        forall|k: Seq<char>, v: Seq<char>, r: Seq<char>|
            #![trigger m[k].contains(v), schema::may_normalise(attributes[k].syntax, v, r)]
            m.contains_key(k) && attributes.contains_key(k) && m[k].contains(v)
                && schema::may_normalise(attributes[k].syntax, v, r) ==> r == v,
        validation::normal_form(attributes, m, n),
    ensures
        n == m,
{
    let raw = attrs::listing(m);
    let s = choose|s: Seq<Ava>| #[trigger]
        validation::normal_avas(attributes, raw, s) && n == validation::collected(s);
    assert forall|i: int| 0 <= i < raw.len() implies s[i] == #[trigger] raw[i] by {
        let (x, y) = (raw[i], s[i]);
        assert(validation::normal_ava(attributes, x, y));
        assert(m.contains_key(x.0));
        assert(y.0 == x.0);
        if attributes.contains_key(y.0) {
            assert forall|j: int| 0 <= j < x.1.len() implies y.1[j] == #[trigger] x.1[j] by {
                assert(m[x.0].contains(x.1[j]));
                assert(schema::may_normalise(attributes[y.0].syntax, x.1[j], y.1[j]));
            }
            assert(y.1 =~= x.1);
        }
    }
    assert(s =~= raw);
    lemma_collected_lists(raw, m);
}

/// The attributes of a list are finite in number.
pub(crate) proof fn lemma_collected_finite(s: Seq<Ava>)
    ensures
        validation::collected(s).dom().finite(),
    decreases s.len(),
{
    if s.len() > 0 {
        lemma_collected_finite(s.drop_last());
    }
}

/// The attributes of a list without two of the same name are those that it lists.
proof fn lemma_collected_lists(s: Seq<Ava>, m: Attrs)
    requires
        attrs::lists(s, m),
    ensures
        validation::collected(s) == m,
    decreases s.len(),
{
    if s.len() == 0 {
        assert forall|k: Seq<char>| !m.contains_key(k) by {
            if m.contains_key(k) {
                assert(attrs::names_of(s).contains(k));
            }
        }
        assert(m =~= Map::<Seq<char>, Seq<Seq<char>>>::empty());
    } else {
        attrs::lemma_lists_drop_last(s, m);
        lemma_collected_lists(s.drop_last(), m.remove(s.last().0));
        assert(s[s.len() - 1] == s.last());
        assert(validation::collected(s) =~= m);
    }
}

} // verus!
