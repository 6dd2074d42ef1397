//! Modifications of the attributes of an entry, and lists of them.

use vstd::prelude::*;

use crate::attrs::Attrs;
use crate::values;

verus! {

/// A change of one attribute.
#[derive(Debug, PartialEq)]
pub enum Modify {
    /// The attribute has the value.
    Present(String, String),
    /// The attribute does not have the value.
    Removed(String, String),
    /// The attribute has no value at all.
    Purged(String),
}

/// What a `Modify` says.
pub enum ModifyView {
    Present(Seq<char>, Seq<char>),
    Removed(Seq<char>, Seq<char>),
    Purged(Seq<char>),
}

impl View for Modify {
    type V = ModifyView;

    open spec fn view(&self) -> ModifyView {
        match self {
            Modify::Present(attr, value) => ModifyView::Present(attr@, value@),
            Modify::Removed(attr, value) => ModifyView::Removed(attr@, value@),
            Modify::Purged(attr) => ModifyView::Purged(attr@),
        }
    }
}

/// Changes to be made one after the other.
#[derive(Debug, PartialEq)]
pub struct ModifyList {
    pub mods: Vec<Modify>,
}

impl View for ModifyList {
    type V = Seq<ModifyView>;

    open spec fn view(&self) -> Seq<ModifyView> {
        self.mods@.map_values(|m: Modify| m@)
    }
}

impl ModifyList {
    /// The list of no change.
    pub fn new() -> (r: Self)
        ensures
            r@ == Seq::<ModifyView>::empty(),
    {
        let r = ModifyList { mods: Vec::new() };
        assert(r@ =~= Seq::<ModifyView>::empty());
        r
    }

    /// The list of the given changes.
    pub fn new_list(mods: Vec<Modify>) -> (r: Self)
        ensures
            r.mods == mods,
            r@ == mods@.map_values(|m: Modify| m@),
    {
        ModifyList { mods }
    }

    /// Puts a change at the end.
    pub fn push_mod(&mut self, modify: Modify)
        ensures
            final(self)@ == old(self)@.push(modify@),
            final(self).mods@ == old(self).mods@.push(modify),
    {
        self.mods.push(modify);
        assert(self@ =~= old(self)@.push(modify@));
    }
}

/// What attributes become when `value` is added to `attr`. An attribute that is not there gets
/// it as its only value.
pub open spec fn with_added(m: Attrs, attr: Seq<char>, value: Seq<char>) -> Attrs {
    m.insert(
        attr,
        if m.contains_key(attr) {
            values::with_value(m[attr], value)
        } else {
            seq![value]
        },
    )
}

/// What attributes become when `value` is removed from `attr`. The attribute stays, with an
/// empty list where this was its only value.
pub open spec fn with_removed(m: Attrs, attr: Seq<char>, value: Seq<char>) -> Attrs {
    if m.contains_key(attr) {
        m.insert(attr, values::without_value(m[attr], value))
    } else {
        m
    }
}

/// What attributes become by one change.
pub open spec fn with_modify(m: Attrs, x: ModifyView) -> Attrs {
    match x {
        ModifyView::Present(attr, value) => with_added(m, attr, value),
        ModifyView::Removed(attr, value) => with_removed(m, attr, value),
        ModifyView::Purged(attr) => m.remove(attr),
    }
}

/// What attributes become by changes made one after the other.
pub open spec fn with_modifies(m: Attrs, xs: Seq<ModifyView>) -> Attrs
    decreases xs.len(),
{
    if xs.len() == 0 {
        m
    } else {
        with_modify(with_modifies(m, xs.drop_last()), xs.last())
    }
}

} // verus!
