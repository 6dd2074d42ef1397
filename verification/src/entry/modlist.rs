//! Entries and lists of modifications.

use vstd::prelude::*;

use crate::attrs;
use crate::attrs::{Attrs, Ava};
use crate::entry::{Entry, EntryInvalid, EntryValid};
use crate::modify;
use crate::modify::{Modify, ModifyList, ModifyView};
use crate::schema::{SchemaAttribute, SchemaReadTransaction};
use crate::values;

verus! {

/// Each value of an attribute is to be present.
pub open spec fn presents(attr: Seq<char>, list: Seq<Seq<char>>) -> Seq<ModifyView> {
    list.map_values(|value: Seq<char>| ModifyView::Present(attr, value))
}

/// The changes by which an attribute gets the values of `ava`. An attribute that can have one
/// value only is purged first.
pub open spec fn mods_for(ava: Ava, multivalue: bool) -> Seq<ModifyView> {
    if multivalue {
        presents(ava.0, ava.1)
    } else {
        seq![ModifyView::Purged(ava.0)] + presents(ava.0, ava.1)
    }
}

/// The changes by which the attributes of `avas` get their values, attribute by attribute.
pub open spec fn assert_mods<S>(
    avas: Seq<Ava>,
    schema: Map<Seq<char>, SchemaAttribute<S>>,
) -> Seq<ModifyView>
    decreases avas.len(),
{
    if avas.len() == 0 {
        Seq::empty()
    } else {
        assert_mods(avas.drop_last(), schema) + mods_for(
            avas.last(),
            schema[avas.last().0].multivalue,
        )
    }
}

/// The attributes are all in the schema.
pub open spec fn all_known<S>(m: Attrs, schema: Map<Seq<char>, SchemaAttribute<S>>) -> bool {
    forall|k: Seq<char>| #[trigger] m.contains_key(k) ==> schema.contains_key(k)
}

/// Puts the changes by which an attribute gets some values at the end of a list.
pub fn push_mods(mods: &mut ModifyList, attr: &String, list: &Vec<String>, multivalue: bool)
    ensures
        final(mods)@ == old(mods)@ + mods_for((attr@, values::strings(list@)), multivalue),
{
    if !multivalue {
        mods.push_mod(Modify::Purged(attr.clone()));
    }
    let ghost before = mods@;
    let ghost all = presents(attr@, values::strings(list@));
    assert(before + all.take(0) =~= before);
    for i in 0..list.len()
        invariant
            all == presents(attr@, values::strings(list@)),
            mods@ == before + all.take(i as int),
    {
        assert(all[i as int] == ModifyView::Present(attr@, list@[i as int]@));
        assert(before + all.take(i + 1) =~= (before + all.take(i as int)).push(all[i as int]));
        mods.push_mod(Modify::Present(attr.clone(), list[i].clone()));
    }
    assert(all.take(list@.len() as int) =~= all);
    assert(mods@ =~= old(mods)@ + mods_for((attr@, values::strings(list@)), multivalue));
}

impl<STATE> Entry<EntryValid, STATE> {
    /// The changes that make an entry have the values of this one. Where an attribute can
    /// have one value only, they replace those that were there. It is an error if an
    /// attribute is not in the schema.
    pub fn gen_modlist_assert<S>(&self, schema: &SchemaReadTransaction<S>) -> (r: Result<
        ModifyList,
        (),
    >)
        ensures
            r is Ok <==> all_known(self@.attrs, schema.attributes@),
            r matches Ok(mods) ==> mods@ == assert_mods(
                attrs::listing(self@.attrs),
                schema.attributes@,
            ),
    {
        let mut mods = ModifyList::new();
        let mut avas = self.avas();
        let ghost all = avas@;
        let ghost mut n: int = 0;
        let ghost m = self@.attrs;
        assert(all.skip(0) =~= all);
        loop
            invariant
                m == self@.attrs,
                all == attrs::listing(m),
                attrs::lists(all, m),
                0 <= n <= all.len(),
                avas@ == all.skip(n),
                mods@ == assert_mods(all.take(n), schema.attributes@),
                forall|i: int| 0 <= i < n ==> schema.attributes@.contains_key((#[trigger] all[i]).0),
            ensures
                n == all.len(),
            decreases all.len() - n,
        {
            match avas.next() {
                Some((attr, list)) => {
                    assert(all[n] == (attr@, values::strings(list@)));
                    match schema.is_multivalue(attr.as_str()) {
                        Ok(multivalue) => {
                            push_mods(&mut mods, attr, list, multivalue);
                        },
                        Err(_) => {
                            assert(m.contains_key(all[n].0));
                            return Err(());
                        },
                    }
                    proof {
                        assert(all.take(n + 1).drop_last() =~= all.take(n));
                        n = n + 1;
                        assert(avas@ =~= all.skip(n));
                    }
                },
                None => {
                    break;
                },
            }
        }
        proof {
            assert(all.take(n) =~= all);
            assert forall|k: Seq<char>| #[trigger] m.contains_key(k) implies schema.attributes@.contains_key(
                k,
            ) by {
                let i = attrs::names_of(all).index_of(k);
                assert(attrs::names_of(all).contains(k));
                assert(attrs::names_of(all)[i] == all[i].0);
            }
        }
        Ok(mods)
    }
}

impl<STATE> Entry<EntryInvalid, STATE> where STATE: Copy {
    /// The entry that this one becomes by the given changes. It does not have to conform to
    /// the schema.
    pub fn apply_modlist(&self, modlist: &ModifyList) -> (r: Result<Entry<EntryInvalid, STATE>, ()>)
        ensures
            r matches Ok(ne) && {
                &&& ne@.attrs == modify::with_modifies(self@.attrs, modlist@)
                &&& ne@.id == self@.id
                &&& ne.state_mark() == self.state_mark()
            },
    {
        let mut ne = self.clone();
        let ghost xs = modlist@;
        for i in 0..modlist.mods.len()
            invariant
                xs == modlist@,
                ne@.attrs == modify::with_modifies(self@.attrs, xs.take(i as int)),
                ne@.id == self@.id,
                ne.state_mark() == self.state_mark(),
        {
            assert(xs[i as int] == modlist.mods@[i as int]@);
            match &modlist.mods[i] {
                Modify::Present(attr, value) => {
                    ne.add_ava(attr.clone(), value.clone());
                },
                Modify::Removed(attr, value) => {
                    ne.remove_ava(attr, value);
                },
                Modify::Purged(attr) => {
                    ne.purge_ava(attr);
                },
            }
            proof {
                let t = xs.take(i + 1);
                assert(t.drop_last() =~= xs.take(i as int));
                assert(t.last() == xs[i as int]);
            }
        }
        assert(xs.take(xs.len() as int) =~= xs);
        Ok(ne)
    }
}

} // verus!
