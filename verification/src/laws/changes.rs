//! What holds of changes: what an entry is after a call, in terms of what it was before.

use vstd::prelude::*;

use crate::attrs;
use crate::attrs::Attrs;
use crate::entry::{Entry, EntryInvalid};
use crate::laws;
use crate::laws::data;
use crate::modify;
use crate::modify::{Modify, ModifyList, ModifyView};
use crate::order;
use crate::values;

verus! {

/// A list of changes says what each of its changes says, and nothing else.
pub proof fn law_list_says_what_its_changes_say(l: ModifyList, a: String, v: String)
    ensures
        l@.len() == l.mods@.len(),
        forall|i: int| 0 <= i < l.mods@.len() ==> #[trigger] l@[i] == l.mods@[i]@,
        Modify::Present(a, v)@ == ModifyView::Present(a@, v@),
        Modify::Removed(a, v)@ == ModifyView::Removed(a@, v@),
        Modify::Purged(a)@ == ModifyView::Purged(a@),
{
}

/// The value that is added to an attribute is there once it was added. All other values stay,
/// in their order, and so do all other attributes. In sorted values it gets its place, and a
/// value that is there is not added again.
pub proof fn law_added(m: Attrs, attr: Seq<char>, value: Seq<char>, n: Attrs)
    requires
        n == modify::with_added(m, attr, value),
    ensures
        n.dom() == m.dom().insert(attr),
        forall|k: Seq<char>| k != attr && #[trigger] m.contains_key(k) ==> n[k] == m[k],
        n[attr].contains(value),
        !m.contains_key(attr) ==> n[attr].len() == 1,
        m.contains_key(attr) ==> n[attr] == m[attr] || exists|i: int|
            0 <= i <= m[attr].len() && n[attr] == #[trigger] m[attr].insert(i, value),
        m.contains_key(attr) && (forall|i: int, j: int|
            0 <= i <= j < m[attr].len() ==> !order::str_lt(
                #[trigger] m[attr][j],
                #[trigger] m[attr][i],
            )) ==> {
            &&& m[attr].contains(value) ==> n[attr] == m[attr]
            &&& forall|i: int, j: int|
                0 <= i <= j < n[attr].len() ==> !order::str_lt(
                    #[trigger] n[attr][j],
                    #[trigger] n[attr][i],
                )
        },
{
    laws::law_added_value_is_there(m, attr, value);
    assert(crate::filter::has_value(n, attr, value));
    assert(n.dom() =~= m.dom().insert(attr));
    if m.contains_key(attr) {
        let s = m[attr];
        values::lemma_with_value(s, value);
        if forall|i: int, j: int|
            0 <= i <= j < s.len() ==> !order::str_lt(#[trigger] s[j], #[trigger] s[i]) {
            data::lemma_sorted_if(s);
            values::lemma_with_value_sorted(s, value);
            data::lemma_sorted_then(n[attr]);
        }
    }
}

/// Removing a value takes it out of one place, or changes nothing. The attribute stays, and so
/// do all other values, in their order, and all other attributes. From sorted values it is
/// taken if it is there, also where it is the only one.
pub proof fn law_removed(m: Attrs, attr: Seq<char>, value: Seq<char>, n: Attrs)
    requires
        n == modify::with_removed(m, attr, value),
    ensures
        n.dom() == m.dom(),
        forall|k: Seq<char>| k != attr && #[trigger] m.contains_key(k) ==> n[k] == m[k],
        m.contains_key(attr) ==> n[attr] == m[attr] || exists|i: int|
            0 <= i < m[attr].len() && m[attr][i] == value && n[attr] == #[trigger] m[attr].remove(i),
        m.contains_key(attr) && m[attr].contains(value) && (forall|i: int, j: int|
            0 <= i <= j < m[attr].len() ==> !order::str_lt(
                #[trigger] m[attr][j],
                #[trigger] m[attr][i],
            )) ==> n[attr].len() == m[attr].len() - 1,
{
    assert(n.dom() =~= m.dom());
    if m.contains_key(attr) {
        let s = m[attr];
        values::lemma_without_value(s, value);
        if s.contains(value) && forall|i: int, j: int|
            0 <= i <= j < s.len() ==> !order::str_lt(#[trigger] s[j], #[trigger] s[i]) {
            data::lemma_sorted_if(s);
            s.index_of_first_ensures(value);
        }
    }
}

/// Adding a value to an attribute of an entry makes it present. Nothing else is lost, and
/// nothing else is new. Sorted values stay sorted, and do not change if the value is there.
pub proof fn law_add_ava<STATE: Copy>(
    e: &mut Entry<EntryInvalid, STATE>,
    attr: String,
    value: String,
)
    requires
        call_ensures(Entry::<EntryInvalid, STATE>::add_ava, (e, attr, value), ()),
    ensures
        final(e)@.id == old(e)@.id,
        final(e)@.attrs.dom() == old(e)@.attrs.dom().insert(attr@),
        forall|k: Seq<char>|
            k != attr@ && #[trigger] old(e)@.attrs.contains_key(k) ==> final(e)@.attrs[k] == old(
                e,
            )@.attrs[k],
        forall|v: Seq<char>| #[trigger]
            final(e)@.attrs[attr@].contains(v) <==> v == value@ || (old(e)@.attrs.contains_key(
                attr@,
            ) && old(e)@.attrs[attr@].contains(v)),
        old(e)@.attrs.contains_key(attr@) ==> final(e)@.attrs[attr@].len() <= old(
            e,
        )@.attrs[attr@].len() + 1,
        !old(e)@.attrs.contains_key(attr@) ==> final(e)@.attrs[attr@].len() == 1,
        old(e)@.attrs.contains_key(attr@) && (forall|i: int, j: int|
            0 <= i <= j < old(e)@.attrs[attr@].len() ==> !order::str_lt(
                #[trigger] old(e)@.attrs[attr@][j],
                #[trigger] old(e)@.attrs[attr@][i],
            )) ==> {
            &&& old(e)@.attrs[attr@].contains(value@) ==> final(e)@.attrs == old(e)@.attrs
            &&& forall|i: int, j: int|
                0 <= i <= j < final(e)@.attrs[attr@].len() ==> !order::str_lt(
                    #[trigger] final(e)@.attrs[attr@][j],
                    #[trigger] final(e)@.attrs[attr@][i],
                )
        },
{
    let m = old(e)@.attrs;
    let n = final(e)@.attrs;
    law_added(m, attr@, value@, n);
    laws::law_added_value_is_there(m, attr@, value@);
    if m.contains_key(attr@) && n[attr@] == m[attr@] {
        assert(n =~= m);
    }
    assert forall|v: Seq<char>| #[trigger] n[attr@].contains(v) <==> v == value@ || (m.contains_key(
        attr@,
    ) && m[attr@].contains(v)) by {
        assert(crate::filter::has_value(n, attr@, v) <==> v == value@ || crate::filter::has_value(
            m,
            attr@,
            v,
        ));
    }
}

/// Removing a value from an attribute of an entry leaves the attribute there. Where its values
/// ascend, the value is gone, also if it was the only one; nothing else is lost or new, and
/// the values still ascend.
pub proof fn law_remove_ava<STATE: Copy>(
    e: &mut Entry<EntryInvalid, STATE>,
    attr: &String,
    value: &String,
)
    requires
        call_ensures(Entry::<EntryInvalid, STATE>::remove_ava, (e, attr, value), ()),
        forall|i: int, j: int|
            0 <= i < j < old(e)@.attrs[attr@].len() ==> order::str_lt(
                #[trigger] old(e)@.attrs[attr@][i],
                #[trigger] old(e)@.attrs[attr@][j],
            ),
    ensures
        final(e)@.id == old(e)@.id,
        final(e)@.attrs.dom() == old(e)@.attrs.dom(),
        forall|k: Seq<char>|
            k != attr@ && #[trigger] old(e)@.attrs.contains_key(k) ==> final(e)@.attrs[k] == old(
                e,
            )@.attrs[k],
        old(e)@.attrs.contains_key(attr@) ==> forall|v: Seq<char>| #[trigger]
            final(e)@.attrs[attr@].contains(v) <==> v != value@ && old(e)@.attrs[attr@].contains(v),
        old(e)@.attrs.contains_key(attr@) ==> forall|i: int, j: int|
            0 <= i < j < final(e)@.attrs[attr@].len() ==> order::str_lt(
                #[trigger] final(e)@.attrs[attr@][i],
                #[trigger] final(e)@.attrs[attr@][j],
            ),
{
    let m = old(e)@.attrs;
    let n = final(e)@.attrs;
    law_removed(m, attr@, value@, n);
    if m.contains_key(attr@) {
        assert(values::ascending(m[attr@]));
        laws::law_removed_value_is_gone(m, attr@, value@);
        assert forall|v: Seq<char>| #[trigger] n[attr@].contains(v) <==> v != value@
            && m[attr@].contains(v) by {
            assert(crate::filter::has_value(n, attr@, v) <==> v != value@
                && crate::filter::has_value(m, attr@, v));
        }
    }
}

/// In whatever order the values of an attribute are, adding and removing go by what a search
/// among them finds. What is found is not added, and what is not found is added where the
/// search ended. What is found is removed, and if nothing is found, nothing changes.
pub proof fn law_changes_go_by_search(
    m: Attrs,
    attr: Seq<char>,
    list: &Vec<String>,
    value: &str,
    r: Result<usize, usize>,
)
    requires
        m.contains_key(attr),
        m[attr].len() == list@.len(),
        forall|i: int| 0 <= i < list@.len() ==> m[attr][i] == (#[trigger] list@[i])@,
        call_ensures(values::search, (list, value), r),
    ensures
        match r {
            Ok(i) => {
                &&& modify::with_added(m, attr, value@) == m
                &&& modify::with_removed(m, attr, value@) == m.insert(
                    attr,
                    m[attr].remove(i as int),
                )
            },
            Err(i) => {
                &&& modify::with_added(m, attr, value@) == m.insert(
                    attr,
                    m[attr].insert(i as int, value@),
                )
                &&& modify::with_removed(m, attr, value@) == m
            },
        },
{
    let s = values::strings(list@);
    assert(s =~= m[attr]);
    match r {
        Ok(i) => {
            assert(s[i as int] == value@);
            if values::sorted(s) {
                values::lemma_remove_any(s, value@, i as int);
            }
            assert(modify::with_added(m, attr, value@) =~= m);
        },
        Err(i) => {
            assert(modify::with_removed(m, attr, value@) =~= m);
        },
    }
}

/// A list of no change gives the entry back.
pub proof fn law_apply_nothing<STATE: Copy>(
    e: Entry<EntryInvalid, STATE>,
    l: ModifyList,
    r: Result<Entry<EntryInvalid, STATE>, ()>,
)
    requires
        call_ensures(Entry::<EntryInvalid, STATE>::apply_modlist, (&e, &l), r),
        l.mods@.len() == 0,
    ensures
        r matches Ok(ne) && ne@ == e@,
{
}

/// A list of one change adds a value that is to be present.
pub proof fn law_apply_present<STATE: Copy>(
    e: Entry<EntryInvalid, STATE>,
    l: ModifyList,
    r: Result<Entry<EntryInvalid, STATE>, ()>,
    attr: String,
    value: String,
    other: &mut Entry<EntryInvalid, STATE>,
)
    requires
        call_ensures(Entry::<EntryInvalid, STATE>::apply_modlist, (&e, &l), r),
        l.mods@ == seq![Modify::Present(attr, value)],
        old(other)@ == e@,
        call_ensures(Entry::<EntryInvalid, STATE>::add_ava, (other, attr, value), ()),
    ensures
        r matches Ok(ne) && ne@ == final(other)@,
{
    assert(l@ =~= seq![ModifyView::Present(attr@, value@)]);
    laws::law_modlist_of_one(e@.attrs, ModifyView::Present(attr@, value@));
}

/// A list of one change removes a value that is to be removed.
pub proof fn law_apply_removed<STATE: Copy>(
    e: Entry<EntryInvalid, STATE>,
    l: ModifyList,
    r: Result<Entry<EntryInvalid, STATE>, ()>,
    attr: String,
    value: String,
    other: &mut Entry<EntryInvalid, STATE>,
)
    requires
        call_ensures(Entry::<EntryInvalid, STATE>::apply_modlist, (&e, &l), r),
        l.mods@ == seq![Modify::Removed(attr, value)],
        old(other)@ == e@,
        call_ensures(Entry::<EntryInvalid, STATE>::remove_ava, (other, &attr, &value), ()),
    ensures
        r matches Ok(ne) && ne@ == final(other)@,
{
    assert(l@ =~= seq![ModifyView::Removed(attr@, value@)]);
    laws::law_modlist_of_one(e@.attrs, ModifyView::Removed(attr@, value@));
}

/// A list of one change takes out an attribute that is to be purged, and nothing else.
pub proof fn law_apply_purged<STATE: Copy>(
    e: Entry<EntryInvalid, STATE>,
    l: ModifyList,
    r: Result<Entry<EntryInvalid, STATE>, ()>,
    attr: String,
)
    requires
        call_ensures(Entry::<EntryInvalid, STATE>::apply_modlist, (&e, &l), r),
        l.mods@ == seq![Modify::Purged(attr)],
    ensures
        r matches Ok(ne) && ne@.id == e@.id && ne@.attrs == e@.attrs.remove(attr@),
{
    assert(l@ =~= seq![ModifyView::Purged(attr@)]);
    laws::law_modlist_of_one(e@.attrs, ModifyView::Purged(attr@));
}

/// Applying a list of changes gives what applying its first part, and then the second part to
/// what came of it, gives, wherever the list is cut.
pub proof fn law_apply_in_two_parts<STATE: Copy>(
    e: Entry<EntryInvalid, STATE>,
    first: ModifyList,
    second: ModifyList,
    all: ModifyList,
    between: Entry<EntryInvalid, STATE>,
    parts: Entry<EntryInvalid, STATE>,
    whole: Entry<EntryInvalid, STATE>,
)
    requires
        all.mods@.len() == first.mods@.len() + second.mods@.len(),
        forall|i: int|
            0 <= i < first.mods@.len() ==> (#[trigger] all.mods@[i])@ == first.mods@[i]@,
        forall|i: int|
            0 <= i < second.mods@.len() ==> all.mods@[first.mods@.len() + i]@ == (
            #[trigger] second.mods@[i])@,
        call_ensures(Entry::<EntryInvalid, STATE>::apply_modlist, (&e, &first), Ok(between)),
        call_ensures(Entry::<EntryInvalid, STATE>::apply_modlist, (&between, &second), Ok(parts)),
        call_ensures(Entry::<EntryInvalid, STATE>::apply_modlist, (&e, &all), Ok(whole)),
    ensures
        whole@ == parts@,
{
    let n = first.mods@.len() as int;
    assert forall|i: int| 0 <= i < all@.len() implies all@[i] == (first@ + second@)[i] by {
        if i < n {
            assert(all.mods@[i]@ == first.mods@[i]@);
        } else {
            let j = i - n;
            assert(all.mods@[n + j]@ == second.mods@[j]@);
        }
    }
    assert(all@ =~= first@ + second@);
    laws::law_modlist_in_two_parts(e@.attrs, first@, second@);
}

/// A value that a list of changes makes present, and that no later one removes or purges, is
/// there in the end.
pub proof fn law_apply_makes_present<STATE: Copy>(
    e: Entry<EntryInvalid, STATE>,
    l: ModifyList,
    ne: Entry<EntryInvalid, STATE>,
    at: int,
    attr: Seq<char>,
    value: Seq<char>,
)
    requires
        call_ensures(Entry::<EntryInvalid, STATE>::apply_modlist, (&e, &l), Ok(ne)),
        0 <= at < l.mods@.len(),
        l.mods@[at]@ == ModifyView::Present(attr, value),
        forall|i: int|
            at < i < l.mods@.len() ==> (#[trigger] l.mods@[i])@ != ModifyView::Removed(attr, value)
                && l.mods@[i]@ != ModifyView::Purged(attr),
    ensures
        ne@.attrs.contains_key(attr),
        ne@.attrs[attr].contains(value),
{
    assert forall|i: int| at < i < l@.len() implies !laws::takes_out(
        #[trigger] l@[i],
        attr,
        value,
    ) by {
        assert(l@[i] == l.mods@[i]@);
    }
    laws::law_present_value_is_there(e@.attrs, l@, at, attr, value);
}

/// A value that a list of changes removes, and that no later one makes present, is not there
/// in the end, where the values of all attributes ascend.
pub proof fn law_apply_makes_absent<STATE: Copy>(
    e: Entry<EntryInvalid, STATE>,
    l: ModifyList,
    ne: Entry<EntryInvalid, STATE>,
    at: int,
    attr: Seq<char>,
    value: Seq<char>,
)
    requires
        call_ensures(Entry::<EntryInvalid, STATE>::apply_modlist, (&e, &l), Ok(ne)),
        forall|k: Seq<char>, i: int, j: int|
            e@.attrs.contains_key(k) && 0 <= i < j < e@.attrs[k].len() ==> order::str_lt(
                #[trigger] e@.attrs[k][i],
                #[trigger] e@.attrs[k][j],
            ),
        0 <= at < l.mods@.len(),
        l.mods@[at]@ == ModifyView::Removed(attr, value),
        forall|i: int|
            at < i < l.mods@.len() ==> (#[trigger] l.mods@[i])@ != ModifyView::Present(attr, value),
    ensures
        !(ne@.attrs.contains_key(attr) && ne@.attrs[attr].contains(value)),
{
    let m = e@.attrs;
    assert forall|k: Seq<char>| #[trigger] m.contains_key(k) implies values::ascending(m[k]) by {}
    assert forall|i: int| at < i < l@.len() implies #[trigger] l@[i] != ModifyView::Present(
        attr,
        value,
    ) by {
        assert(l@[i] == l.mods@[i]@);
    }
    law_removed_value_stays_away(m, l@, at, attr, value);
}

/// A value that a list of changes removes, and that no later one makes present, is not there
/// in the end, where the values of all attributes ascend.
pub proof fn law_removed_value_stays_away(
    m: Attrs,
    xs: Seq<ModifyView>,
    at: int,
    attr: Seq<char>,
    value: Seq<char>,
)
    requires
        attrs::all_ascending(m),
        0 <= at < xs.len(),
        xs[at] == ModifyView::Removed(attr, value),
        forall|i: int|
            at < i < xs.len() ==> #[trigger] xs[i] != ModifyView::Present(attr, value),
    ensures
        !(modify::with_modifies(m, xs).contains_key(attr) && modify::with_modifies(
            m,
            xs,
        )[attr].contains(value)),
    decreases xs.len(),
{
    let rest = xs.drop_last();
    let k = modify::with_modifies(m, rest);
    let n = modify::with_modifies(m, xs);
    assert(xs[xs.len() - 1] == xs.last());
    laws::law_modlist_keeps_ascending(m, rest);
    if at == xs.len() - 1 {
        laws::law_removed_value_is_gone(k, attr, value);
        assert(!crate::filter::has_value(n, attr, value));
    } else {
        assert(rest[at] == xs[at]);
        law_removed_value_stays_away(m, rest, at, attr, value);
        match xs.last() {
            ModifyView::Present(a, v) => {
                laws::law_added_value_is_there(k, a, v);
                assert(crate::filter::has_value(n, a, value) <==> value == v
                    || crate::filter::has_value(k, a, value));
            },
            ModifyView::Removed(a, v) => {
                laws::law_remove_takes_nothing_else(k, a, v);
                assert(crate::filter::has_value(n, a, value) ==> crate::filter::has_value(
                    k,
                    a,
                    value,
                ));
            },
            ModifyView::Purged(a) => {},
        }
    }
}

/// An attribute that a list of changes purges, and in which no later one makes a value present,
/// is not there in the end.
pub proof fn law_apply_purges<STATE: Copy>(
    e: Entry<EntryInvalid, STATE>,
    l: ModifyList,
    ne: Entry<EntryInvalid, STATE>,
    at: int,
    attr: Seq<char>,
)
    requires
        call_ensures(Entry::<EntryInvalid, STATE>::apply_modlist, (&e, &l), Ok(ne)),
        0 <= at < l.mods@.len(),
        l.mods@[at]@ == ModifyView::Purged(attr),
        forall|i: int|
            at < i < l.mods@.len() ==> match (#[trigger] l.mods@[i])@ {
                ModifyView::Present(a, _) => a != attr,
                _ => true,
            },
    ensures
        !ne@.attrs.contains_key(attr),
{
    assert forall|i: int| at < i < l@.len() implies !(#[trigger] l@[i] matches ModifyView::Present(
        a,
        _,
    ) && a == attr) by {
        assert(l@[i] == l.mods@[i]@);
    }
    laws::law_purged_attribute_is_gone(e@.attrs, l@, at, attr);
}

/// A list of changes leaves an attribute as it is that none of them names. The id stays.
pub proof fn law_apply_leaves_others<STATE: Copy>(
    e: Entry<EntryInvalid, STATE>,
    l: ModifyList,
    ne: Entry<EntryInvalid, STATE>,
    attr: Seq<char>,
)
    requires
        call_ensures(Entry::<EntryInvalid, STATE>::apply_modlist, (&e, &l), Ok(ne)),
        forall|i: int|
            0 <= i < l.mods@.len() ==> match (#[trigger] l.mods@[i])@ {
                ModifyView::Present(a, _) => a != attr,
                ModifyView::Removed(a, _) => a != attr,
                ModifyView::Purged(a) => a != attr,
            },
    ensures
        ne@.id == e@.id,
        ne@.attrs.contains_key(attr) <==> e@.attrs.contains_key(attr),
        e@.attrs.contains_key(attr) ==> ne@.attrs[attr] == e@.attrs[attr],
{
    assert forall|i: int| 0 <= i < l@.len() implies laws::attribute_of(#[trigger] l@[i]) != attr by {
        assert(l@[i] == l.mods@[i]@);
    }
    laws::law_modlist_leaves_others(e@.attrs, l@, attr);
}

} // verus!
