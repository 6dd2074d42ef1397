# directory_entry

Entries of a directory: attributes with lists of string values. The type of an entry tells
whether it conforms to the schema (`EntryValid`, `EntryInvalid`) and whether it has been
committed (`EntryNew`, `EntryCommitted`).

- `src/entry` holds the entries: reading and changing attributes, matching against filters
  (`matching`), generating and applying lists of modifications (`modlist`), normalising and
  checking against the schema (`validation`).
- `src/filter.rs`, `src/modify.rs`, `src/schema.rs` and `src/proto.rs` hold what entries are
  matched with, changed by, checked against and exchanged as.
- `src/order.rs`, `src/values.rs`, `src/map.rs` and `src/attrs.rs` hold the order of strings,
  sorted lists of them, a map that is walked in the order of its names, and the model of
  attributes.
- `src/laws.rs` states what holds of all these together.
- `app` holds the serialised forms and the iterators.

The values of an attribute are searched by halving. `from` sorts them, and `add_ava`,
`remove_ava` and `apply_modlist` keep them sorted. `set_avas`, `avas_mut`, `normalise` and
`validate` can leave them in another order, since values are put in as they are given, or are
normalised one by one. With such values `add_ava` and `remove_ava` go by what the halving
search comes to, which may miss a value that is there.

Unless it is of the class `extensibleobject`, a valid entry has only attributes that its
classes require or allow.

How values are normalised and checked is left to implementations of `schema::Syntax`, of which
nothing is presumed.
