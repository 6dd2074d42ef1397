//! What holds of entries as they come from clients, go to them, are read, walked through,
//! copied and compared.

use vstd::prelude::*;
use vstd::std_specs::cmp::PartialEqSpec;

use crate::attrs;
use crate::entry::{
    Entry, EntryAvas, EntryClasses, EntryCommitted, EntryInvalid, EntryNew, EntryValid,
};
use crate::laws;
use crate::laws::data;
use crate::order;
use crate::proto::ProtoEntry;
use crate::values;

verus! {

/// An entry made of what a client sent has the same attributes. Each has the values that were
/// sent, every one as often, in whatever order they were sent; they stand in sorted order.
pub proof fn law_entry_from_a_client(p: ProtoEntry, e: Entry<EntryInvalid, EntryNew>)
    requires
        call_ensures(Entry::<EntryInvalid, EntryNew>::from, (&p,), e),
    ensures
        e@.id is None,
        e@.attrs.dom() == p.attrs@.dom(),
        forall|k: Seq<char>| #[trigger]
            p.attrs@.contains_key(k) ==> e@.attrs[k].to_multiset()
                == p.attrs@[k]@.map_values(|s: String| s@).to_multiset(),
        forall|k: Seq<char>| #[trigger]
            p.attrs@.contains_key(k) ==> e@.attrs[k].len() == p.attrs@[k]@.len(),
        forall|k: Seq<char>, i: int, j: int|
            p.attrs@.contains_key(k) && 0 <= i <= j < e@.attrs[k].len() ==> !order::str_lt(
                #[trigger] e@.attrs[k][j],
                #[trigger] e@.attrs[k][i],
            ),
{
    let m = attrs::attrs_of(p.attrs);
    data::law_attributes_of_a_map(p.attrs);
    data::law_sorted_form_keeps_values(m, e@.attrs);
    assert forall|k: Seq<char>| #[trigger] p.attrs@.contains_key(k) implies e@.attrs[k].to_multiset()
        == p.attrs@[k]@.map_values(|s: String| s@).to_multiset() by {
        assert(m.contains_key(k));
        assert(p.attrs@[k]@.map_values(|s: String| s@) =~= m[k]);
    }
    assert forall|k: Seq<char>| #[trigger] p.attrs@.contains_key(k) implies e@.attrs[k].len()
        == p.attrs@[k]@.len() by {
        assert(m.contains_key(k));
    }
    assert forall|k: Seq<char>, i: int, j: int|
        p.attrs@.contains_key(k) && 0 <= i <= j < e@.attrs[k].len() implies !order::str_lt(
        #[trigger] e@.attrs[k][j],
        #[trigger] e@.attrs[k][i],
    ) by {
        assert(m.contains_key(k));
    }
}

/// What a client receives of an entry has its attributes with their values, one by one, in
/// their order.
pub proof fn law_entry_to_a_client<STATE>(e: Entry<EntryValid, STATE>, p: ProtoEntry)
    requires
        call_ensures(Entry::<EntryValid, STATE>::into, (&e,), p),
    ensures
        p.attrs@.dom() == e@.attrs.dom(),
        forall|k: Seq<char>| #[trigger]
            p.attrs@.contains_key(k) ==> p.attrs@[k]@.len() == e@.attrs[k].len(),
        forall|k: Seq<char>, i: int|
            p.attrs@.contains_key(k) && 0 <= i < p.attrs@[k]@.len() ==> (
            #[trigger] p.attrs@[k]@[i])@ == e@.attrs[k][i],
{
    data::law_attributes_of_a_map(p.attrs);
    assert forall|k: Seq<char>, i: int|
        p.attrs@.contains_key(k) && 0 <= i < p.attrs@[k]@.len() implies (
    #[trigger] p.attrs@[k]@[i])@ == e@.attrs[k][i] by {
        assert(attrs::attrs_of(p.attrs)[k][i] == p.attrs@[k]@[i]@);
    }
}

/// An entry that a client received and sent back has the same attributes with the same values,
/// every one as often. If the values were sorted, it is the same in all.
pub proof fn law_entry_there_and_back<STATE>(
    e: Entry<EntryValid, STATE>,
    p: ProtoEntry,
    back: Entry<EntryInvalid, EntryNew>,
)
    requires
        call_ensures(Entry::<EntryValid, STATE>::into, (&e,), p),
        call_ensures(Entry::<EntryInvalid, EntryNew>::from, (&p,), back),
    ensures
        back@.attrs.dom() == e@.attrs.dom(),
        forall|k: Seq<char>| #[trigger]
            e@.attrs.contains_key(k) ==> back@.attrs[k].to_multiset() == e@.attrs[k].to_multiset(),
        (forall|k: Seq<char>, i: int, j: int|
            e@.attrs.contains_key(k) && 0 <= i <= j < e@.attrs[k].len() ==> !order::str_lt(
                #[trigger] e@.attrs[k][j],
                #[trigger] e@.attrs[k][i],
            )) ==> back@.attrs == e@.attrs,
{
    data::law_sorted_form_keeps_values(e@.attrs, back@.attrs);
    let m = e@.attrs;
    if forall|k: Seq<char>, i: int, j: int|
        m.contains_key(k) && 0 <= i <= j < m[k].len() ==> !order::str_lt(
            #[trigger] m[k][j],
            #[trigger] m[k][i],
        ) {
        assert forall|k: Seq<char>| #[trigger] m.contains_key(k) implies values::sorted(m[k]) by {
            data::lemma_sorted_if(m[k]);
        }
        laws::law_sorted_entry_comes_back(m, back@.attrs);
    }
}

/// A walk through an entry goes from the smallest attribute name to the largest, with the
/// values of each, and leaves none out.
pub proof fn law_walk_through_an_entry<VALID, STATE>(e: Entry<VALID, STATE>, w: EntryAvas<'_>)
    requires
        call_ensures(Entry::<VALID, STATE>::avas, (&e,), w),
    ensures
        e@.attrs.dom().finite(),
        w@.len() == e@.attrs.dom().len(),
        forall|i: int, j: int|
            0 <= i < j < w@.len() ==> order::str_lt((#[trigger] w@[i]).0, (#[trigger] w@[j]).0),
        forall|i: int|
            0 <= i < w@.len() ==> e@.attrs.contains_key((#[trigger] w@[i]).0) && e@.attrs[w@[i].0]
                == w@[i].1,
        forall|k: Seq<char>| #[trigger]
            e@.attrs.contains_key(k) ==> exists|i: int| 0 <= i < w@.len() && (#[trigger] w@[i]).0 == k,
{
    data::law_listed_attributes(w@, e@.attrs);
}

/// What was set is read again: the values of an attribute are those that it was given, one by
/// one, and those of every other attribute are what they were.
pub proof fn law_set_is_read<STATE: Copy>(
    e: &mut Entry<EntryInvalid, STATE>,
    attr: String,
    list: Vec<String>,
    name: String,
    before: Option<&Vec<String>>,
    after: Option<&Vec<String>>,
)
    requires
        call_ensures(Entry::<EntryInvalid, STATE>::get_ava, (&*old(e), &name), before),
        call_ensures(Entry::<EntryInvalid, STATE>::set_avas, (e, attr, list), ()),
        call_ensures(Entry::<EntryInvalid, STATE>::get_ava, (&*final(e), &name), after),
    ensures
        name@ == attr@ ==> (after matches Some(l) && l@.len() == list@.len() && forall|i: int|
            0 <= i < list@.len() ==> (#[trigger] l@[i])@ == list@[i]@),
        name@ != attr@ ==> (after is Some <==> before is Some) && (after matches Some(l)
            ==> l@.len() == before->Some_0@.len() && forall|i: int|
            0 <= i < l@.len() ==> (#[trigger] l@[i])@ == before->Some_0@[i]@),
{
    if let Some(l) = after {
        let s = values::strings(l@);
        assert(s.len() == l@.len());
        assert forall|i: int| 0 <= i < l@.len() implies (#[trigger] l@[i])@ == s[i] by {}
        if name@ == attr@ {
            let t = values::strings(list@);
            assert(s == t && t.len() == list@.len());
            assert forall|i: int| 0 <= i < list@.len() implies (#[trigger] l@[i])@
                == list@[i]@ by {
                assert(t[i] == list@[i]@);
            }
        } else {
            let b = before->Some_0;
            let t = values::strings(b@);
            assert(s == t && t.len() == b@.len());
            assert forall|i: int| 0 <= i < l@.len() implies (#[trigger] l@[i])@ == b@[i]@ by {
                assert(t[i] == b@[i]@);
            }
        }
    }
}

/// What is purged is not read any more, and what is read of every other attribute stays.
pub proof fn law_purged_is_not_read<STATE: Copy>(
    e: &mut Entry<EntryInvalid, STATE>,
    attr: String,
    name: String,
    before: Option<&Vec<String>>,
    after: Option<&Vec<String>>,
)
    requires
        call_ensures(Entry::<EntryInvalid, STATE>::get_ava, (&*old(e), &name), before),
        call_ensures(Entry::<EntryInvalid, STATE>::purge_ava, (e, &attr), ()),
        call_ensures(Entry::<EntryInvalid, STATE>::get_ava, (&*final(e), &name), after),
    ensures
        final(e)@.id == old(e)@.id,
        name@ == attr@ ==> after is None,
        name@ != attr@ ==> (after is Some <==> before is Some) && (after matches Some(l)
            ==> values::strings(l@) == values::strings(before->Some_0@)),
{
}

/// The questions to an entry agree with what is read of it: an attribute is present just when
/// its values can be read, and a value is there just when it stands somewhere among them. The
/// classes are the values of `class`, one by one.
pub proof fn law_questions_to_an_entry<VALID, STATE>(
    e: Entry<VALID, STATE>,
    attr: String,
    name: &str,
    value: &str,
    list: Option<&Vec<String>>,
    present: bool,
    equal: bool,
    classes: EntryClasses<'_>,
)
    requires
        name@ == attr@,
        call_ensures(Entry::<VALID, STATE>::get_ava, (&e, &attr), list),
        call_ensures(Entry::<VALID, STATE>::attribute_pres, (&e, name), present),
        call_ensures(Entry::<VALID, STATE>::attribute_equality, (&e, name, value), equal),
        attr@ == "class"@ ==> call_ensures(Entry::<VALID, STATE>::classes, (&e,), classes),
    ensures
        present == (list is Some),
        equal <==> (list matches Some(l) && exists|i: int|
            0 <= i < l@.len() && (#[trigger] l@[i])@ == value@),
        attr@ == "class"@ && list is Some ==> classes@.len() == list->Some_0@.len() && forall|i: int|
            0 <= i < classes@.len() ==> #[trigger] classes@[i] == list->Some_0@[i]@,
{
    if let Some(l) = list {
        let s = values::strings(l@);
        assert(s.len() == l@.len());
        if equal {
            let i = s.index_of(value@);
            assert(l@[i]@ == value@);
        }
        if exists|i: int| 0 <= i < l@.len() && (#[trigger] l@[i])@ == value@ {
            let i = choose|i: int| 0 <= i < l@.len() && (#[trigger] l@[i])@ == value@;
            assert(s[i] == value@);
        }
    }
}

/// To mark an entry as valid, as changed or as committed changes neither its id nor its
/// attributes.
pub proof fn law_marks_change_nothing_else<VALID, STATE>(
    e: Entry<VALID, STATE>,
    v: Entry<EntryValid, STATE>,
    new: Entry<EntryValid, EntryNew>,
    committed: Entry<EntryValid, EntryCommitted>,
    sealed: Entry<EntryValid, EntryCommitted>,
    changed: Entry<EntryInvalid, STATE>,
)
    requires
        call_ensures(Entry::<VALID, STATE>::to_valid_new, (e,), new),
        call_ensures(Entry::<VALID, STATE>::to_valid_committed, (e,), committed),
        call_ensures(Entry::<EntryValid, STATE>::seal, (v,), sealed),
        call_ensures(Entry::<EntryValid, STATE>::invalidate, (v,), changed),
    ensures
        new@ == e@,
        committed@ == e@,
        sealed@ == v@,
        changed@ == v@,
{
}

/// Two entries are equal just when they have the same attributes, each with the same values in
/// the same order. The id does not count.
pub proof fn law_equal_entries<VALID, STATE>(a: Entry<VALID, STATE>, b: Entry<VALID, STATE>)
    ensures
        a.eq_spec(&b) <==> a@.attrs.dom() == b@.attrs.dom() && forall|k: Seq<char>| #[trigger]
            a@.attrs.contains_key(k) ==> a@.attrs[k] == b@.attrs[k],
{
    if a@.attrs.dom() == b@.attrs.dom() && forall|k: Seq<char>| #[trigger]
        a@.attrs.contains_key(k) ==> a@.attrs[k] == b@.attrs[k] {
        assert(a@.attrs =~= b@.attrs);
    }
}

/// A copy of an entry is the entry: it has the same id and the same attributes.
pub proof fn law_copy<VALID: Copy, STATE: Copy>(e: Entry<VALID, STATE>, r: Entry<VALID, STATE>)
    requires
        call_ensures(Entry::<VALID, STATE>::clone, (&e,), r),
    ensures
        r@.id == e@.id,
        r@.attrs == e@.attrs,
        r.valid_mark() == e.valid_mark(),
        r.state_mark() == e.state_mark(),
{
}

/// Entries compare as equal just when they have the same attributes, each with the same values
/// in the same order, whichever of the two is asked. The id does not count.
pub proof fn law_compare(
    a: Entry<EntryValid, EntryNew>,
    b: Entry<EntryValid, EntryCommitted>,
    r: bool,
    back: bool,
)
    requires
        call_ensures(Entry::<EntryValid, EntryNew>::compare, (&a, &b), r),
        call_ensures(Entry::<EntryValid, EntryCommitted>::compare, (&b, &a), back),
    ensures
        r == back,
        r <==> a@.attrs.dom() == b@.attrs.dom() && forall|k: Seq<char>| #[trigger]
            a@.attrs.contains_key(k) ==> a@.attrs[k] == b@.attrs[k],
{
    if a@.attrs.dom() == b@.attrs.dom() && forall|k: Seq<char>| #[trigger]
        a@.attrs.contains_key(k) ==> a@.attrs[k] == b@.attrs[k] {
        assert(a@.attrs =~= b@.attrs);
    }
}

} // verus!
