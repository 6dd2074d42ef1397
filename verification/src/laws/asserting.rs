//! What holds of the changes that assert an entry.

use vstd::prelude::*;

use crate::attrs::Ava;
use crate::entry::modlist;
use crate::entry::{Entry, EntryAvas, EntryInvalid, EntryValid};
use crate::filter;
use crate::laws;
use crate::modify::{ModifyList, ModifyView};
use crate::schema::{SchemaAttribute, SchemaReadTransaction};
use crate::values;

verus! {

/// An entry can be asserted just when each of its attributes is in the schema.
pub proof fn law_assert_needs_the_schema<S, STATE>(
    e: Entry<EntryValid, STATE>,
    schema: SchemaReadTransaction<S>,
    r: Result<ModifyList, ()>,
)
    requires
        call_ensures(Entry::<EntryValid, STATE>::gen_modlist_assert, (&e, &schema), r),
    ensures
        r is Ok <==> forall|k: Seq<char>| #[trigger]
            e@.attrs.contains_key(k) ==> schema.attributes@.contains_key(k),
{
}

/// The changes for one attribute put at the end of a list: one that purges it if it can have
/// one value only, then one for each value, in the order of the values.
pub proof fn law_changes_for_an_attribute(
    mods: &mut ModifyList,
    attr: &String,
    list: &Vec<String>,
    multivalue: bool,
)
    requires
        call_ensures(modlist::push_mods, (mods, attr, list, multivalue), ()),
    ensures
        final(mods)@.len() == old(mods)@.len() + list@.len() + (if multivalue { 0int } else { 1int }),
        forall|i: int| 0 <= i < old(mods)@.len() ==> #[trigger] final(mods)@[i] == old(mods)@[i],
        !multivalue ==> final(mods)@[old(mods)@.len() as int] == ModifyView::Purged(attr@),
        forall|i: int|
            0 <= i < list@.len() ==> final(mods)@[final(mods)@.len() - list@.len() + i]
                == ModifyView::Present(attr@, (#[trigger] list@[i])@),
{
    let s = values::strings(list@);
    assert(s.len() == list@.len());
    lemma_mods_for((attr@, s), multivalue);
    let block = modlist::mods_for((attr@, s), multivalue);
    let (a, b) = (old(mods)@, final(mods)@);
    assert(b == a + block);
    assert forall|i: int| 0 <= i < list@.len() implies b[b.len() - list@.len() + i]
        == ModifyView::Present(attr@, (#[trigger] list@[i])@) by {
        assert(s[i] == list@[i]@);
        assert(block[block.len() - s.len() + i] == ModifyView::Present(attr@, s[i]));
    }
}

/// What the changes for one attribute are.
proof fn lemma_mods_for(ava: Ava, multivalue: bool)
    ensures
        modlist::mods_for(ava, multivalue).len() == ava.1.len() + (if multivalue {
            0int
        } else {
            1int
        }),
        !multivalue ==> modlist::mods_for(ava, multivalue)[0] == ModifyView::Purged(ava.0),
        forall|j: int|
            0 <= j < ava.1.len() ==> modlist::mods_for(ava, multivalue)[modlist::mods_for(
                ava,
                multivalue,
            ).len() - ava.1.len() + j] == ModifyView::Present(ava.0, #[trigger] ava.1[j]),
{
}

/// The changes that assert an entry go through its attributes as a walk does, from the smallest
/// name to the largest. Where the changes for each begin is told by `at`: behind those for the
/// one before. They are one that purges the attribute if it can have one value only, then one
/// for each value, in the order of the values. There are no others.
pub proof fn law_changes_that_assert<S, STATE>(
    e: Entry<EntryValid, STATE>,
    schema: SchemaReadTransaction<S>,
    l: ModifyList,
    walk: EntryAvas<'_>,
    at: Seq<int>,
)
    requires
        call_ensures(Entry::<EntryValid, STATE>::gen_modlist_assert, (&e, &schema), Ok(l)),
        call_ensures(Entry::<EntryValid, STATE>::avas, (&e,), walk),
        at.len() == walk@.len() + 1,
        at[0] == 0,
        forall|i: int|
            0 <= i < walk@.len() ==> at[i + 1] == at[i] + (#[trigger] walk@[i]).1.len() + (
            if schema.attributes@[walk@[i].0].multivalue {
                0int
            } else {
                1int
            }),
    ensures
        l@.len() == at[walk@.len() as int],
        forall|i: int|
            0 <= i < walk@.len() && !schema.attributes@[(#[trigger] walk@[i]).0].multivalue
                ==> l@[at[i]] == ModifyView::Purged(walk@[i].0),
        forall|i: int, j: int|
            0 <= i < walk@.len() && 0 <= j < walk@[i].1.len() ==> l@[at[i + 1] - walk@[i].1.len()
                + j] == ModifyView::Present(walk@[i].0, #[trigger] walk@[i].1[j]),
{
    lemma_blocks(walk@, schema.attributes@, at);
}

/// Where the changes for the attributes of a list stand.
proof fn lemma_blocks<S>(
    avas: Seq<Ava>,
    schema: Map<Seq<char>, SchemaAttribute<S>>,
    at: Seq<int>,
)
    requires
        at.len() == avas.len() + 1,
        at[0] == 0,
        forall|i: int|
            0 <= i < avas.len() ==> at[i + 1] == at[i] + (#[trigger] avas[i]).1.len() + (
            if schema[avas[i].0].multivalue {
                0int
            } else {
                1int
            }),
    ensures
        modlist::assert_mods(avas, schema).len() == at[avas.len() as int],
        forall|i: int|
            0 <= i < avas.len() && !schema[(#[trigger] avas[i]).0].multivalue ==> 0 <= at[i]
                < at[avas.len() as int] && modlist::assert_mods(avas, schema)[at[i]]
                == ModifyView::Purged(avas[i].0),
        forall|i: int, j: int|
            0 <= i < avas.len() && 0 <= j < avas[i].1.len() ==> 0 <= at[i + 1] - avas[i].1.len() + j
                < at[avas.len() as int] && modlist::assert_mods(avas, schema)[at[i + 1]
                - avas[i].1.len() + j] == ModifyView::Present(
                avas[i].0,
                #[trigger] avas[i].1[j],
            ),
    decreases avas.len(),
{
    if avas.len() > 0 {
        let n = avas.len() - 1;
        let rest = avas.drop_last();
        let last = avas.last();
        let before = at.drop_last();
        assert forall|i: int| 0 <= i < rest.len() implies before[i + 1] == before[i] + (
        #[trigger] rest[i]).1.len() + (if schema[rest[i].0].multivalue {
            0int
        } else {
            1int
        }) by {
            assert(rest[i] == avas[i]);
        }
        lemma_blocks(rest, schema, before);
        let multivalue = schema[last.0].multivalue;
        lemma_mods_for(last, multivalue);
        let (a, b) = (modlist::assert_mods(rest, schema), modlist::mods_for(last, multivalue));
        let all = modlist::assert_mods(avas, schema);
        assert(all == a + b);
        assert(avas[n] == last);
        assert(at[n + 1] == at[n] + last.1.len() + (if multivalue { 0int } else { 1int }));
        assert(a.len() == before[n]);
        assert forall|i: int|
            0 <= i < avas.len() && !schema[(#[trigger] avas[i]).0].multivalue implies 0 <= at[i]
            < at[avas.len() as int] && all[at[i]] == ModifyView::Purged(avas[i].0) by {
            if i < n {
                assert(rest[i] == avas[i]);
                assert(before[i] == at[i]);
                assert(all[at[i]] == a[at[i]]);
            } else {
                assert(all[at[i]] == b[0]);
            }
        }
        assert forall|i: int, j: int| 0 <= i < avas.len() && 0 <= j < avas[i].1.len() implies 0
            <= at[i + 1] - avas[i].1.len() + j < at[n + 1] && all[at[i + 1] - avas[i].1.len() + j]
            == ModifyView::Present(avas[i].0, #[trigger] avas[i].1[j]) by {
            if i < n {
                assert(rest[i] == avas[i]);
                assert(rest[i].1[j] == avas[i].1[j]);
                assert(before[i + 1] == at[i + 1]);
            } else {
                assert(last.1[j] == avas[i].1[j]);
            }
        }
    }
}

/// An entry in which another was asserted has the values of that one. In an attribute of that
/// one that can have several values its own are kept, and in one that can have one value only
/// they are not. Any other attribute, and the id, stay as they were.
pub proof fn law_assert_then_apply<S, STATE, OTHER: Copy>(
    e: Entry<EntryValid, STATE>,
    schema: SchemaReadTransaction<S>,
    l: ModifyList,
    walk: EntryAvas<'_>,
    target: Entry<EntryInvalid, OTHER>,
    r: Entry<EntryInvalid, OTHER>,
)
    requires
        call_ensures(Entry::<EntryValid, STATE>::gen_modlist_assert, (&e, &schema), Ok(l)),
        call_ensures(Entry::<EntryValid, STATE>::avas, (&e,), walk),
        call_ensures(Entry::<EntryInvalid, OTHER>::apply_modlist, (&target, &l), Ok(r)),
    ensures
        r@.id == target@.id,
        forall|k: Seq<char>, v: Seq<char>|
            e@.attrs.contains_key(k) && #[trigger] e@.attrs[k].contains(v)
                ==> r@.attrs.contains_key(k) && r@.attrs[k].contains(v),
        forall|k: Seq<char>, v: Seq<char>|
            e@.attrs.contains_key(k) && r@.attrs.contains_key(k) && #[trigger] r@.attrs[k].contains(v)
                ==> e@.attrs[k].contains(v) || (schema.attributes@[k].multivalue
                && target@.attrs.contains_key(k) && target@.attrs[k].contains(v)),
        forall|k: Seq<char>, v: Seq<char>|
            e@.attrs.contains_key(k) && schema.attributes@[k].multivalue
                && target@.attrs.contains_key(k) && #[trigger] target@.attrs[k].contains(v)
                ==> r@.attrs.contains_key(k) && r@.attrs[k].contains(v),
        forall|k: Seq<char>|
            !#[trigger] e@.attrs.contains_key(k) ==> (r@.attrs.contains_key(k)
                <==> target@.attrs.contains_key(k)) && (target@.attrs.contains_key(k)
                ==> r@.attrs[k] == target@.attrs[k]),
{
    let (m, t, n) = (e@.attrs, target@.attrs, r@.attrs);
    laws::law_assert_gives_values(m, schema.attributes@, t, n);
    assert forall|k: Seq<char>, v: Seq<char>| m.contains_key(k) && #[trigger] m[k].contains(
        v,
    ) implies n.contains_key(k) && n[k].contains(v) by {
        assert(filter::has_value(m, k, v));
        assert(filter::has_value(n, k, v));
    }
    assert forall|k: Seq<char>, v: Seq<char>|
        m.contains_key(k) && n.contains_key(k) && #[trigger] n[k].contains(v) implies m[k].contains(
        v,
    ) || (schema.attributes@[k].multivalue && t.contains_key(k) && t[k].contains(v)) by {
        assert(laws::given_values(m, k, schema.attributes@[k].multivalue, t, n));
        assert(filter::has_value(n, k, v));
    }
    assert forall|k: Seq<char>, v: Seq<char>|
        m.contains_key(k) && schema.attributes@[k].multivalue && t.contains_key(k)
            && #[trigger] t[k].contains(v) implies n.contains_key(k) && n[k].contains(v) by {
        assert(laws::given_values(m, k, schema.attributes@[k].multivalue, t, n));
        assert(filter::has_value(t, k, v));
        assert(filter::has_value(n, k, v));
    }
}

} // verus!
