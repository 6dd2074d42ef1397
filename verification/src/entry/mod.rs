//! Entries. The type of an entry tells whether it was found to conform to the schema since
//! it was last changed, and whether it has been committed.

use vstd::prelude::*;

use crate::attrs;
use crate::attrs::{Attrs, Ava};
use crate::map::StringMap;
use crate::modify;
use crate::proto::ProtoEntry;
use crate::values;

pub mod matching;
pub mod modlist;
pub mod validation;

verus! {

/// The entry was never committed.
#[derive(Clone, Copy, Debug)]
pub struct EntryNew;

/// The entry has been committed, so that it has an id.
#[derive(Clone, Copy, Debug)]
pub struct EntryCommitted;

/// The entry conforms to the schema.
#[derive(Clone, Copy, Debug)]
pub struct EntryValid;

/// The entry may have been changed since it was last validated.
#[derive(Clone, Copy, Debug)]
pub struct EntryInvalid;

/// An entry: attributes, each with a list of values, and the id that it has once it was
/// committed.
#[derive(Debug)]
pub struct Entry<VALID, STATE> {
    valid: VALID,
    state: STATE,
    pub id: Option<i64>,
    attrs: StringMap<Vec<String>>,
}

/// What an entry holds.
pub struct EntryView {
    pub id: Option<i64>,
    pub attrs: Attrs,
}

impl<VALID, STATE> View for Entry<VALID, STATE> {
    type V = EntryView;

    closed spec fn view(&self) -> EntryView {
        EntryView { id: self.id, attrs: attrs::attrs_of(self.attrs) }
    }
}

impl<VALID, STATE> Entry<VALID, STATE> {
    /// The mark that tells whether the entry is valid.
    pub closed spec fn valid_mark(self) -> VALID {
        self.valid
    }

    /// The mark that tells whether the entry is committed.
    pub closed spec fn state_mark(self) -> STATE {
        self.state
    }

    /// The id of the entry.
    pub fn get_id(&self) -> (r: Option<i64>)
        ensures
            r == self@.id,
    {
        self.id
    }

    /// Gives the entry an id, or takes it away.
    pub fn set_id(&mut self, id: Option<i64>)
        ensures
            final(self)@ == (EntryView { id, attrs: old(self)@.attrs }),
            final(self).valid_mark() == old(self).valid_mark(),
            final(self).state_mark() == old(self).state_mark(),
    {
        self.id = id;
    }
}

/// Walks through the classes of an entry.
pub struct EntryClasses<'a> {
    size: usize,
    inner: &'a Vec<String>,
    position: usize,
}

impl<'a> View for EntryClasses<'a> {
    type V = Seq<Seq<char>>;

    /// The classes that are still to come.
    closed spec fn view(&self) -> Seq<Seq<char>> {
        values::strings(self.inner@).skip(self.position as int)
    }
}

impl<'a> EntryClasses<'a> {
    #[verifier::type_invariant]
    spec fn wf(self) -> bool {
        self.position <= self.inner@.len()
    }

    /// The number of classes that there were in the beginning.
    pub closed spec fn total(self) -> nat {
        self.size as nat
    }

    /// The next class.
    pub fn next(&mut self) -> (r: Option<&'a String>)
        ensures
            match r {
                Some(class) => {
                    &&& old(self)@.len() > 0
                    &&& class@ == old(self)@[0]
                    &&& final(self)@ == old(self)@.drop_first()
                },
                None => old(self)@.len() == 0 && final(self)@ == old(self)@,
            },
            final(self).total() == old(self).total(),
    {
        proof {
            use_type_invariant(&*self);
        }
        if self.position < self.inner.len() {
            let class = &self.inner[self.position];
            self.position = self.position + 1;
            assert(self@ =~= old(self)@.drop_first());
            Some(class)
        } else {
            None
        }
    }

    /// How many classes are still to come, at least and at most.
    pub fn size_hint(&self) -> (r: (usize, Option<usize>))
        ensures
            r.0 == self@.len(),
            r.1 == Some(r.0),
    {
        proof {
            use_type_invariant(self);
        }
        let n: usize = self.inner.len() - self.position;
        (n, Some(n))
    }

    /// How many classes there were in the beginning.
    pub fn len(&self) -> (r: usize)
        ensures
            r == self.total(),
    {
        self.size
    }
}

/// Walks through the attributes of an entry.
pub struct EntryAvas<'a> {
    inner: &'a StringMap<Vec<String>>,
    position: usize,
}

impl<'a> View for EntryAvas<'a> {
    type V = Seq<Ava>;

    /// The attributes that are still to come.
    closed spec fn view(&self) -> Seq<Ava> {
        attrs::avas_of(*self.inner).skip(self.position as int)
    }
}

impl<'a> EntryAvas<'a> {
    #[verifier::type_invariant]
    spec fn wf(self) -> bool {
        self.position <= self.inner.names().len()
    }

    /// The next attribute with its values.
    pub fn next(&mut self) -> (r: Option<(&'a String, &'a Vec<String>)>)
        ensures
            match r {
                Some((name, list)) => {
                    &&& old(self)@.len() > 0
                    &&& old(self)@[0] == (name@, values::strings(list@))
                    &&& final(self)@ == old(self)@.drop_first()
                },
                None => old(self)@.len() == 0 && final(self)@ == old(self)@,
            },
    {
        proof {
            use_type_invariant(&*self);
        }
        if self.position < self.inner.len() {
            let name = self.inner.name_at(self.position);
            let list = self.inner.item_at(self.position);
            self.position = self.position + 1;
            assert(self@ =~= old(self)@.drop_first());
            Some((name, list))
        } else {
            None
        }
    }

    /// How many attributes are still to come, at least and at most.
    pub fn size_hint(&self) -> (r: (usize, Option<usize>))
        ensures
            r.0 == self@.len(),
            r.1 == Some(r.0),
    {
        proof {
            use_type_invariant(self);
        }
        let n: usize = self.inner.len() - self.position;
        (n, Some(n))
    }
}

/// Walks through the attributes of an entry and lets their values be changed.
pub struct EntryAvasMut<'a> {
    /// The attributes of the entry.
    pub inner: &'a mut StringMap<Vec<String>>,
    /// The number of attributes that the walk has passed.
    pub position: usize,
}

impl<'a> EntryAvasMut<'a> {
    /// All the attributes as they are now, those that were passed too.
    pub open spec fn all(self) -> Seq<Ava> {
        attrs::avas_of(*self.inner)
    }

    /// The next attribute with its values, to change. What is made of the values is what the
    /// entry has from then on; nothing else changes.
    pub fn next(&mut self) -> (r: Option<(&String, &mut Vec<String>)>)
        ensures
            *final(final(self).inner) == *final(old(self).inner),
            match r {
                Some((name, list)) => {
                    &&& old(self).position < old(self).all().len()
                    &&& old(self).all()[old(self).position as int] == (
                        name@,
                        values::strings(list@),
                    )
                    &&& final(self).position == old(self).position + 1
                    &&& final(self).all() == old(self).all().update(
                        old(self).position as int,
                        (name@, values::strings(final(list)@)),
                    )
                    &&& attrs::attrs_of(*final(self).inner) == attrs::attrs_of(
                        *old(self).inner,
                    ).insert(name@, values::strings(final(list)@))
                },
                None => {
                    &&& old(self).position >= old(self).all().len()
                    &&& final(self).position == old(self).position
                    &&& *final(self).inner == *old(self).inner
                },
            },
    {
        if self.position < self.inner.len() {
            let i: usize = self.position;
            self.position = i + 1;
            Some(self.inner.entry_mut(i))
        } else {
            None
        }
    }

    /// How many attributes are still to come, at least and at most.
    pub fn size_hint(&self) -> (r: (usize, Option<usize>))
        ensures
            r.0 == (if self.position < self.all().len() {
                self.all().len() - self.position
            } else {
                0
            }),
            r.1 == Some(r.0),
    {
        let n: usize = self.inner.len();
        let left: usize = if self.position < n {
            n - self.position
        } else {
            0
        };
        (left, Some(left))
    }
}

impl Entry<EntryInvalid, EntryNew> {
    /// An entry without attributes.
    pub fn new() -> (r: Self)
        ensures
            r@.id is None,
            r@.attrs == Map::<Seq<char>, Seq<Seq<char>>>::empty(),
    {
        let r = Entry {
            valid: EntryInvalid,
            state: EntryNew,
            id: None,
            attrs: StringMap::new(),
        };
        assert(r@.attrs =~= Map::<Seq<char>, Seq<Seq<char>>>::empty());
        r
    }

    /// The entry with the attributes that a client sent, their values sorted.
    pub fn from(e: &ProtoEntry) -> (r: Self)
        ensures
            r@.id is None,
            attrs::sorted_form(attrs::attrs_of(e.attrs), r@.attrs),
            attrs::all_sorted(r@.attrs),
    {
        Entry {
            valid: EntryInvalid,
            state: EntryNew,
            id: None,
            attrs: attrs::sorted_attrs(&e.attrs),
        }
    }
}

impl<VALID, STATE> Clone for Entry<VALID, STATE> where VALID: Copy, STATE: Copy {
    fn clone(&self) -> (r: Self)
        ensures
            r@ == self@,
            r.valid_mark() == self.valid_mark(),
            r.state_mark() == self.state_mark(),
    {
        Entry {
            valid: self.valid,
            state: self.state,
            id: self.id,
            attrs: attrs::copy_attrs(&self.attrs),
        }
    }
}

/// Ways past the validation, for entries of which it is known that they conform to the schema.
impl<VALID, STATE> Entry<VALID, STATE> {
    /// Takes the entry for a valid one that was never committed.
    pub fn to_valid_new(self) -> (r: Entry<EntryValid, EntryNew>)
        ensures
            r@ == self@,
    {
        Entry { valid: EntryValid, state: EntryNew, id: self.id, attrs: self.attrs }
    }

    /// Takes the entry for a valid one that has been committed.
    pub fn to_valid_committed(self) -> (r: Entry<EntryValid, EntryCommitted>)
        ensures
            r@ == self@,
    {
        Entry { valid: EntryValid, state: EntryCommitted, id: self.id, attrs: self.attrs }
    }
}

impl Entry<EntryValid, EntryNew> {
    /// Tells whether a committed entry has the same attributes with the same values.
    pub fn compare(&self, rhs: &Entry<EntryValid, EntryCommitted>) -> (r: bool)
        ensures
            r == (self@.attrs == rhs@.attrs),
    {
        attrs::same_attrs(&self.attrs, &rhs.attrs)
    }
}

impl Entry<EntryValid, EntryCommitted> {
    /// Tells whether a new entry has the same attributes with the same values.
    pub fn compare(&self, rhs: &Entry<EntryValid, EntryNew>) -> (r: bool)
        ensures
            r == (self@.attrs == rhs@.attrs),
    {
        attrs::same_attrs(&self.attrs, &rhs.attrs)
    }
}

impl<STATE> Entry<EntryValid, STATE> {
    /// Gives the validation up, so that the entry can be changed.
    pub fn invalidate(self) -> (r: Entry<EntryInvalid, STATE>)
        ensures
            r@ == self@,
            r.state_mark() == self.state_mark(),
    {
        Entry { valid: EntryInvalid, state: self.state, id: self.id, attrs: self.attrs }
    }

    /// Marks the entry as committed.
    pub fn seal(self) -> (r: Entry<EntryValid, EntryCommitted>)
        ensures
            r@ == self@,
            r.valid_mark() == self.valid_mark(),
    {
        Entry { valid: self.valid, state: EntryCommitted, id: self.id, attrs: self.attrs }
    }

    /// The form in which a client receives the entry.
    pub fn into(&self) -> (r: ProtoEntry)
        ensures
            attrs::attrs_of(r.attrs) == self@.attrs,
    {
        ProtoEntry { attrs: attrs::copy_attrs(&self.attrs) }
    }
}

impl<VALID, STATE> Entry<VALID, STATE> {
    /// The values of an attribute.
    pub fn get_ava(&self, attr: &String) -> (r: Option<&Vec<String>>)
        ensures
            match r {
                Some(list) => self@.attrs.contains_key(attr@) && values::strings(list@)
                    == self@.attrs[attr@],
                None => !self@.attrs.contains_key(attr@),
            },
    {
        attrs::get_values(&self.attrs, attr.as_str())
    }

    /// Tells whether the entry has an attribute, if only with an empty list of values.
    pub fn attribute_pres(&self, attr: &str) -> (r: bool)
        ensures
            r == self@.attrs.contains_key(attr@),
    {
        attrs::get_values(&self.attrs, attr).is_some()
    }

    /// Tells whether an attribute has a value.
    pub fn attribute_equality(&self, attr: &str, value: &str) -> (r: bool)
        ensures
            r == (self@.attrs.contains_key(attr@) && self@.attrs[attr@].contains(value@)),
    {
        match attrs::get_values(&self.attrs, attr) {
            Some(list) => values::contains(list, value),
            None => false,
        }
    }

    /// The classes of the entry: the values of its attribute `class`, which must be there.
    pub fn classes(&self) -> (r: EntryClasses<'_>)
        requires
            self@.attrs.contains_key("class"@),
        ensures
            r@ == self@.attrs["class"@],
            r.total() == r@.len(),
    {
        match attrs::get_values(&self.attrs, "class") {
            Some(list) => {
                let r = EntryClasses { size: list.len(), inner: list, position: 0 };
                assert(r@ =~= values::strings(list@));
                r
            },
            None => {
                vstd::pervasive::unreached()
            },
        }
    }

    /// The attributes of the entry with their values, in ascending order of their names.
    pub fn avas(&self) -> (r: EntryAvas<'_>)
        ensures
            attrs::lists(r@, self@.attrs),
            r@ == attrs::listing(self@.attrs),
            self@.attrs.dom().finite(),
            r@.len() == self@.attrs.dom().len(),
    {
        let r = EntryAvas { inner: &self.attrs, position: 0 };
        proof {
            use_type_invariant(&self.attrs);
            self.attrs.lemma_number();
            assert(self@.attrs.dom() =~= self.attrs@.dom());
            attrs::lemma_avas_of(self.attrs);
            assert(r@ =~= attrs::avas_of(self.attrs));
        }
        r
    }
}

impl<STATE> Entry<EntryInvalid, STATE> where STATE: Copy {
    /// Adds a value to an attribute. An attribute that is not there gets it as its only
    /// value.
    pub fn add_ava(&mut self, attr: String, value: String)
        ensures
            final(self)@.attrs == modify::with_added(old(self)@.attrs, attr@, value@),
            final(self)@.id == old(self)@.id,
            final(self).state_mark() == old(self).state_mark(),
    {
        let ghost before = self.attrs;
        let ghost name = attr@;
        match self.attrs.get_mut(attr.as_str()) {
            Some(list) => {
                let ghost s = values::strings(list@);
                match values::search(list, value.as_str()) {
                    Ok(i) => {
                        assert(s[i as int] == value@);
                    },
                    Err(i) => {
                        let ghost v = value@;
                        list.insert(i, value);
                        assert(values::strings(list@) =~= s.insert(i as int, v));
                    },
                }
            },
            None => {
                let mut list: Vec<String> = Vec::new();
                let ghost v = value@;
                list.push(value);
                assert(values::strings(list@) =~= seq![v]);
                self.attrs.insert(attr, list);
            },
        }
        proof {
            attrs::lemma_attrs_insert(before, self.attrs, name, self.attrs@[name]);
        }
    }

    /// Removes a value from an attribute, if it is there. The attribute stays, if only with
    /// an empty list of values.
    pub fn remove_ava(&mut self, attr: &String, value: &String)
        ensures
            final(self)@.attrs == modify::with_removed(old(self)@.attrs, attr@, value@),
            final(self)@.id == old(self)@.id,
            final(self).state_mark() == old(self).state_mark(),
    {
        let ghost before = self.attrs;
        match self.attrs.get_mut(attr.as_str()) {
            Some(list) => {
                let ghost s = values::strings(list@);
                match values::search(list, value.as_str()) {
                    Ok(i) => {
                        proof {
                            assert(s[i as int] == value@);
                            if values::sorted(s) {
                                values::lemma_remove_any(s, value@, i as int);
                            }
                        }
                        list.remove(i);
                        assert(values::strings(list@) =~= s.remove(i as int));
                    },
                    Err(_) => {},
                }
            },
            None => {},
        }
        proof {
            if before@.contains_key(attr@) {
                attrs::lemma_attrs_insert(before, self.attrs, attr@, self.attrs@[attr@]);
            }
        }
    }

    /// Takes an attribute out with all its values.
    pub fn purge_ava(&mut self, attr: &String)
        ensures
            final(self)@.attrs == old(self)@.attrs.remove(attr@),
            final(self)@.id == old(self)@.id,
            final(self).state_mark() == old(self).state_mark(),
    {
        self.attrs.remove(attr.as_str());
        assert(self@.attrs =~= old(self)@.attrs.remove(attr@));
    }

    /// Overwrites the values of an attribute. They are taken as they are, in whatever order.
    pub fn set_avas(&mut self, attr: String, values: Vec<String>)
        ensures
            final(self)@.attrs == old(self)@.attrs.insert(attr@, values::strings(values@)),
            final(self)@.id == old(self)@.id,
            final(self).state_mark() == old(self).state_mark(),
    {
        self.attrs.insert(attr, values);
        assert(self@.attrs =~= old(self)@.attrs.insert(attr@, values::strings(values@)));
    }

    /// The attributes of the entry with their values, to change.
    pub fn avas_mut(&mut self) -> (r: EntryAvasMut<'_>)
        ensures
            r.position == 0,
            r.all() == attrs::listing(old(self)@.attrs),
            attrs::attrs_of(*r.inner) == old(self)@.attrs,
            final(self)@.attrs == attrs::attrs_of(*final(r.inner)),
            final(self)@.id == old(self)@.id,
            final(self).state_mark() == old(self).state_mark(),
    {
        proof {
            use_type_invariant(&self.attrs);
            attrs::lemma_avas_of(self.attrs);
        }
        EntryAvasMut { inner: &mut self.attrs, position: 0 }
    }
}

impl<VALID, STATE> PartialEq for Entry<VALID, STATE> {
    fn eq(&self, rhs: &Entry<VALID, STATE>) -> (r: bool) {
        attrs::same_attrs(&self.attrs, &rhs.attrs)
    }
}

/// Entries are equal when they have the same attributes with the same values.
impl<VALID, STATE> vstd::std_specs::cmp::PartialEqSpecImpl for Entry<VALID, STATE> {
    open spec fn obeys_eq_spec() -> bool {
        true
    }

    open spec fn eq_spec(&self, rhs: &Entry<VALID, STATE>) -> bool {
        self@.attrs == rhs@.attrs
    }
}

} // verus!
