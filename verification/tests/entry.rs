use directory_entry::entry::{Entry, EntryCommitted, EntryInvalid, EntryNew, EntryValid};
use directory_entry::map::StringMap;
use directory_entry::modify::{Modify, ModifyList};
use directory_entry::proto::ProtoEntry;

fn text(s: &str) -> String {
    String::from(s)
}

fn texts(l: &[&str]) -> Vec<String> {
    l.iter().map(|s| String::from(*s)).collect()
}

fn values_of<V, S>(e: &Entry<V, S>, attr: &str) -> Vec<String> {
    e.get_ava(&text(attr)).unwrap().clone()
}

fn names_of<V, S>(e: &Entry<V, S>) -> Vec<String> {
    let mut avas = e.avas();
    let mut names = Vec::new();
    while let Some((name, _)) = avas.next() {
        names.push(name.clone());
    }
    names
}

#[test]
fn test_entry_basic() {
    let mut e: Entry<EntryInvalid, EntryNew> = Entry::new();

    e.add_ava(String::from("userid"), String::from("william"));

    let mut attrs = serde_json::Map::new();
    let mut avas = e.avas();
    while let Some((name, values)) = avas.next() {
        attrs.insert(name.clone(), serde_json::to_value(values).unwrap());
    }
    let mut document = serde_json::Map::new();
    document.insert(text("id"), serde_json::to_value(e.id).unwrap());
    document.insert(text("attrs"), serde_json::Value::Object(attrs));
    let d = serde_json::to_string_pretty(&document).unwrap();

    let back: serde_json::Value = serde_json::from_str(&d).unwrap();
    assert_eq!(back["attrs"]["userid"][0], "william");
    assert!(back["id"].is_null());
}

#[test]
fn test_entry_dup_value() {
    let mut e: Entry<EntryInvalid, EntryNew> = Entry::new();
    e.add_ava(String::from("userid"), String::from("william"));
    e.add_ava(String::from("userid"), String::from("william"));

    let values = e.get_ava(&String::from("userid")).unwrap();
    // Should only be one value!
    assert_eq!(values.len(), 1)
}

#[test]
fn test_entry_pres() {
    let mut e: Entry<EntryInvalid, EntryNew> = Entry::new();
    e.add_ava(String::from("userid"), String::from("william"));

    assert!(e.attribute_pres("userid"));
    assert!(!e.attribute_pres("name"));
}

#[test]
fn test_entry_equality() {
    let mut e: Entry<EntryInvalid, EntryNew> = Entry::new();

    e.add_ava(String::from("userid"), String::from("william"));

    assert!(e.attribute_equality("userid", "william"));
    assert!(!e.attribute_equality("userid", "test"));
    assert!(!e.attribute_equality("nonexist", "william"));
}

#[test]
fn test_entry_apply_modlist() {
    // Test application of changes to an entry.
    let mut e: Entry<EntryInvalid, EntryNew> = Entry::new();
    e.add_ava(String::from("userid"), String::from("william"));

    let mods = ModifyList::new_list(vec![
        Modify::Present(String::from("attr"), String::from("value")),
    ]);

    let ne = e.apply_modlist(&mods).unwrap();

    // Assert the changes are there
    assert!(ne.attribute_equality("attr", "value"));

    // The entry itself is as it was.
    assert!(!e.attribute_pres("attr"));
    assert!(ne.attribute_equality("userid", "william"));
}

#[test]
fn new_entry_is_empty() {
    let e: Entry<EntryInvalid, EntryNew> = Entry::new();
    assert_eq!(e.id, None);
    assert_eq!(e.avas().size_hint(), (0, Some(0)));
    assert!(e.avas().next().is_none());
}

#[test]
fn values_are_kept_in_byte_order() {
    let mut e: Entry<EntryInvalid, EntryNew> = Entry::new();
    for v in ["m", "z", "\u{e9}", "a", "Z", "ab", "", "\u{10000}", "\u{ffff}", "m"] {
        e.add_ava(text("x"), text(v));
    }
    let mut expected = texts(&["m", "z", "\u{e9}", "a", "Z", "ab", "", "\u{10000}", "\u{ffff}"]);
    expected.sort_unstable();
    assert_eq!(values_of(&e, "x"), expected);
    assert_eq!(
        expected,
        texts(&["", "Z", "a", "ab", "m", "z", "\u{e9}", "\u{ffff}", "\u{10000}"])
    );
}

#[test]
fn names_are_walked_in_byte_order() {
    let mut e: Entry<EntryInvalid, EntryNew> = Entry::new();
    for n in ["uid", "class", "UID", "u", "\u{3b1}", "name"] {
        e.add_ava(text(n), text("v"));
    }
    assert_eq!(names_of(&e), texts(&["UID", "class", "name", "u", "uid", "\u{3b1}"]));
}

#[test]
fn remove_takes_one_value() {
    let mut e: Entry<EntryInvalid, EntryNew> = Entry::new();
    e.add_ava(text("a"), text("1"));
    e.add_ava(text("a"), text("2"));
    e.add_ava(text("a"), text("3"));
    e.remove_ava(&text("a"), &text("2"));
    assert_eq!(values_of(&e, "a"), texts(&["1", "3"]));
    // Not there: nothing happens.
    e.remove_ava(&text("a"), &text("2"));
    assert_eq!(values_of(&e, "a"), texts(&["1", "3"]));
    e.remove_ava(&text("b"), &text("2"));
    assert!(!e.attribute_pres("b"));
}

#[test]
fn remove_of_last_value_leaves_attribute() {
    let mut e: Entry<EntryInvalid, EntryNew> = Entry::new();
    e.add_ava(text("a"), text("1"));
    e.remove_ava(&text("a"), &text("1"));
    assert!(e.attribute_pres("a"));
    assert!(!e.attribute_equality("a", "1"));
    assert_eq!(values_of(&e, "a").len(), 0);
}

#[test]
fn remove_undoes_add() {
    let mut e: Entry<EntryInvalid, EntryNew> = Entry::new();
    e.add_ava(text("a"), text("1"));
    e.add_ava(text("a"), text("3"));
    let before = e.clone();
    e.add_ava(text("a"), text("2"));
    assert!(e != before);
    e.remove_ava(&text("a"), &text("2"));
    assert!(e == before);
}

#[test]
fn remove_from_duplicates_leaves_the_others() {
    let mut attrs = StringMap::new();
    attrs.insert(text("a"), texts(&["2", "1", "2"]));
    let mut e = Entry::from(&ProtoEntry { attrs });
    assert_eq!(values_of(&e, "a"), texts(&["1", "2", "2"]));
    e.remove_ava(&text("a"), &text("2"));
    assert_eq!(values_of(&e, "a"), texts(&["1", "2"]));
}

#[test]
fn purge_takes_the_attribute() {
    let mut e: Entry<EntryInvalid, EntryNew> = Entry::new();
    e.add_ava(text("a"), text("1"));
    e.add_ava(text("a"), text("2"));
    e.add_ava(text("b"), text("1"));
    e.purge_ava(&text("a"));
    assert!(!e.attribute_pres("a"));
    assert!(e.get_ava(&text("a")).is_none());
    assert!(e.attribute_pres("b"));
    e.purge_ava(&text("c"));
    assert_eq!(names_of(&e), texts(&["b"]));
}

#[test]
fn set_overwrites_and_keeps_the_order_given() {
    let mut e: Entry<EntryInvalid, EntryNew> = Entry::new();
    e.add_ava(text("a"), text("1"));
    e.set_avas(text("a"), texts(&["z", "b", "b"]));
    assert_eq!(values_of(&e, "a"), texts(&["z", "b", "b"]));
    e.set_avas(text("c"), Vec::new());
    assert!(e.attribute_pres("c"));
    assert!(e.attribute_equality("a", "b"));
}

#[test]
fn add_to_unsorted_values_makes_the_value_present() {
    let mut e: Entry<EntryInvalid, EntryNew> = Entry::new();
    e.set_avas(text("a"), texts(&["9", "1", "5"]));
    e.add_ava(text("a"), text("7"));
    assert!(e.attribute_equality("a", "7"));
    assert!(e.attribute_equality("a", "9"));
    assert!(e.attribute_equality("a", "1"));
    assert!(e.attribute_equality("a", "5"));
    assert_eq!(values_of(&e, "a").len(), 4);
}

#[test]
fn avas_mut_changes_values_in_place() {
    let mut e: Entry<EntryInvalid, EntryNew> = Entry::new();
    e.id = Some(7);
    e.add_ava(text("b"), text("1"));
    e.add_ava(text("a"), text("1"));
    {
        let mut avas = e.avas_mut();
        assert_eq!(avas.size_hint(), (2, Some(2)));
        while let Some((name, values)) = avas.next() {
            values.push(format!("{}-more", name));
        }
        assert_eq!(avas.size_hint(), (0, Some(0)));
        assert!(avas.next().is_none());
    }
    assert_eq!(values_of(&e, "a"), texts(&["1", "a-more"]));
    assert_eq!(values_of(&e, "b"), texts(&["1", "b-more"]));
    assert_eq!(e.id, Some(7));
}

#[test]
fn classes_are_walked_in_order() {
    let mut e: Entry<EntryInvalid, EntryNew> = Entry::new();
    e.add_ava(text("class"), text("person"));
    e.add_ava(text("class"), text("object"));
    let mut classes = e.classes();
    assert_eq!(classes.len(), 2);
    assert_eq!(classes.size_hint(), (2, Some(2)));
    assert_eq!(classes.next(), Some(&text("object")));
    assert_eq!(classes.size_hint(), (1, Some(1)));
    // The number of classes stays what it was in the beginning.
    assert_eq!(classes.len(), 2);
    assert_eq!(classes.next(), Some(&text("person")));
    assert_eq!(classes.next(), None);
    assert_eq!(classes.next(), None);
}

#[test]
fn avas_give_every_attribute_once() {
    let mut e: Entry<EntryInvalid, EntryNew> = Entry::new();
    e.add_ava(text("b"), text("2"));
    e.add_ava(text("a"), text("1"));
    e.add_ava(text("b"), text("1"));
    let mut avas = e.avas();
    assert_eq!(avas.size_hint(), (2, Some(2)));
    assert_eq!(avas.next(), Some((&text("a"), &texts(&["1"]))));
    assert_eq!(avas.next(), Some((&text("b"), &texts(&["1", "2"]))));
    assert_eq!(avas.size_hint(), (0, Some(0)));
    assert_eq!(avas.next(), None);
}

#[test]
fn states_keep_id_and_attributes() {
    let mut e: Entry<EntryInvalid, EntryNew> = Entry::new();
    e.id = Some(12);
    e.add_ava(text("a"), text("1"));
    let new: Entry<EntryValid, EntryNew> = e.clone().to_valid_new();
    let committed: Entry<EntryValid, EntryCommitted> = e.clone().to_valid_committed();
    assert!(new.compare(&committed));
    assert!(committed.compare(&new));
    let sealed = new.clone().seal();
    assert_eq!(sealed.id, Some(12));
    assert!(sealed.compare(&new));
    let mut changed = sealed.invalidate();
    assert_eq!(changed.id, Some(12));
    changed.add_ava(text("a"), text("2"));
    assert!(!new.compare(&changed.to_valid_committed()));
}

#[test]
fn equality_ignores_the_id() {
    let mut a: Entry<EntryInvalid, EntryNew> = Entry::new();
    let mut b: Entry<EntryInvalid, EntryNew> = Entry::new();
    assert!(a == b);
    a.id = Some(1);
    a.add_ava(text("x"), text("1"));
    assert!(a != b);
    b.add_ava(text("x"), text("2"));
    assert!(a != b);
    b.remove_ava(&text("x"), &text("2"));
    b.add_ava(text("x"), text("1"));
    assert!(a == b);
    b.add_ava(text("y"), text("1"));
    assert!(a != b);
    b.remove_ava(&text("y"), &text("1"));
    // An attribute without values is an attribute.
    assert!(a != b);
}

#[test]
fn clone_is_independent() {
    let mut a: Entry<EntryInvalid, EntryNew> = Entry::new();
    a.id = Some(3);
    a.add_ava(text("x"), text("1"));
    let b = a.clone();
    a.add_ava(text("x"), text("2"));
    assert_eq!(values_of(&b, "x"), texts(&["1"]));
    assert_eq!(b.id, Some(3));
}

#[test]
fn from_sorts_and_keeps_duplicates() {
    let mut attrs = StringMap::new();
    attrs.insert(text("name"), texts(&["william", "claire", "william", "Anna"]));
    attrs.insert(text("empty"), Vec::new());
    let e = Entry::from(&ProtoEntry { attrs });
    assert_eq!(e.id, None);
    assert_eq!(values_of(&e, "name"), texts(&["Anna", "claire", "william", "william"]));
    assert_eq!(names_of(&e), texts(&["empty", "name"]));
}

#[test]
fn sorted_entry_comes_back() {
    let mut e: Entry<EntryInvalid, EntryNew> = Entry::new();
    e.add_ava(text("a"), text("2"));
    e.add_ava(text("a"), text("1"));
    e.add_ava(text("b"), text("1"));
    let valid = e.clone().to_valid_new();
    let proto = (&valid).into();
    let back = Entry::from(&proto);
    assert!(back == e);
}

#[test]
fn changes_are_made_one_after_the_other() {
    let mut e: Entry<EntryInvalid, EntryNew> = Entry::new();
    e.id = Some(5);
    e.add_ava(text("a"), text("1"));
    e.add_ava(text("b"), text("1"));
    e.add_ava(text("c"), text("1"));
    let ne = e
        .apply_modlist(&ModifyList::new_list(vec![
            Modify::Present(text("a"), text("2")),
            Modify::Removed(text("a"), text("1")),
            Modify::Removed(text("a"), text("7")),
            Modify::Purged(text("b")),
            Modify::Purged(text("nothing")),
            Modify::Purged(text("c")),
            Modify::Present(text("c"), text("9")),
            Modify::Present(text("c"), text("8")),
            Modify::Present(text("c"), text("9")),
        ]))
        .unwrap();
    assert_eq!(ne.id, Some(5));
    assert_eq!(names_of(&ne), texts(&["a", "c"]));
    assert_eq!(values_of(&ne, "a"), texts(&["2"]));
    assert_eq!(values_of(&ne, "c"), texts(&["8", "9"]));
}

#[test]
fn no_change_makes_no_difference() {
    let mut e: Entry<EntryInvalid, EntryNew> = Entry::new();
    e.set_avas(text("a"), texts(&["2", "1"]));
    let ne = e.apply_modlist(&ModifyList::new()).unwrap();
    assert!(ne == e);
}

#[test]
fn changes_can_be_made_in_two_parts() {
    let first = || vec![Modify::Present(text("a"), text("2")), Modify::Purged(text("b"))];
    let second = || {
        vec![
            Modify::Removed(text("a"), text("1")),
            Modify::Present(text("b"), text("3")),
        ]
    };
    let mut e: Entry<EntryInvalid, EntryNew> = Entry::new();
    e.id = Some(5);
    e.add_ava(text("a"), text("1"));
    e.add_ava(text("b"), text("1"));
    let mut all = first();
    all.extend(second());
    let whole = e.apply_modlist(&ModifyList::new_list(all)).unwrap();
    let parts = e
        .apply_modlist(&ModifyList::new_list(first()))
        .unwrap()
        .apply_modlist(&ModifyList::new_list(second()))
        .unwrap();
    assert!(whole == parts);
    assert_eq!(whole.id, parts.id);
    assert_eq!(values_of(&whole, "a"), texts(&["2"]));
    assert_eq!(values_of(&whole, "b"), texts(&["3"]));
}

#[test]
fn changes_of_unsorted_values_can_be_made_in_two_parts() {
    let first = || vec![Modify::Present(text("a"), text("m"))];
    let second = || {
        vec![
            Modify::Present(text("a"), text("m")),
            Modify::Removed(text("a"), text("b")),
        ]
    };
    let mut e: Entry<EntryInvalid, EntryNew> = Entry::new();
    e.set_avas(text("a"), texts(&["a", "a", "a", "z", "b"]));
    let part = e.apply_modlist(&ModifyList::new_list(first())).unwrap();
    // The search passes over the last half, and ends behind it.
    assert_eq!(values_of(&part, "a"), texts(&["a", "a", "a", "z", "b", "m"]));
    let parts = part.apply_modlist(&ModifyList::new_list(second())).unwrap();
    // Now it turns round at `z`, and finds neither the first `m` nor `b`.
    assert_eq!(values_of(&parts, "a"), texts(&["a", "a", "a", "m", "z", "b", "m"]));
    let mut all = first();
    all.extend(second());
    let whole = e.apply_modlist(&ModifyList::new_list(all)).unwrap();
    assert!(whole == parts);
}

#[test]
fn a_list_of_one_change_is_that_change() {
    let mut e: Entry<EntryInvalid, EntryNew> = Entry::new();
    e.add_ava(text("a"), text("1"));
    let ne = e
        .apply_modlist(&ModifyList::new_list(vec![Modify::Present(text("a"), text("0"))]))
        .unwrap();
    e.add_ava(text("a"), text("0"));
    assert!(ne == e);
    assert_eq!(values_of(&ne, "a"), texts(&["0", "1"]));
}

#[test]
fn removing_takes_nothing_else_from_unsorted_values() {
    let mut e: Entry<EntryInvalid, EntryNew> = Entry::new();
    e.set_avas(text("a"), texts(&["z", "m", "b"]));
    e.remove_ava(&text("a"), &text("b"));
    // The search turns to the left at `m`.
    assert_eq!(values_of(&e, "a"), texts(&["z", "m", "b"]));
    e.remove_ava(&text("a"), &text("m"));
    assert_eq!(values_of(&e, "a"), texts(&["z", "b"]));
}

#[test]
fn the_id_is_read_and_set() {
    let mut e: Entry<EntryInvalid, EntryNew> = Entry::new();
    e.add_ava(text("a"), text("1"));
    assert_eq!(e.get_id(), None);
    e.set_id(Some(7));
    assert_eq!(e.get_id(), Some(7));
    assert_eq!(e.id, Some(7));
    assert_eq!(values_of(&e, "a"), texts(&["1"]));
    let mut sealed = e.to_valid_new().seal();
    sealed.set_id(None);
    assert_eq!(sealed.get_id(), None);
}
