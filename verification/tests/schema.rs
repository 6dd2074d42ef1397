use directory_entry::entry::validation::judge_ava;
use directory_entry::entry::{Entry, EntryInvalid, EntryNew, EntryValid};
use directory_entry::map::StringMap;
use directory_entry::modify::{Modify, ModifyList};
use directory_entry::schema::{
    SchemaAttribute, SchemaClass, SchemaError, SchemaReadTransaction, Syntax,
};

/// The syntaxes of these tests.
enum Kind {
    /// Lower case; anything goes.
    Insensitive,
    /// As it is; a number.
    Number,
}

impl Syntax for Kind {
    fn normalise_value(&self, value: &String) -> String {
        match self {
            Kind::Insensitive => value.to_lowercase(),
            Kind::Number => value.clone(),
        }
    }

    fn validate_ava(&self, ava: &Vec<String>) -> Result<(), SchemaError> {
        match self {
            Kind::Insensitive => Ok(()),
            Kind::Number => {
                if ava.iter().all(|v| v.parse::<u32>().is_ok()) {
                    Ok(())
                } else {
                    Err(SchemaError::InvalidAttributeSyntax)
                }
            }
        }
    }
}

fn text(s: &str) -> String {
    String::from(s)
}

fn texts(l: &[&str]) -> Vec<String> {
    l.iter().map(|s| String::from(*s)).collect()
}

fn class(systemmust: &[&str], must: &[&str], systemmay: &[&str], may: &[&str]) -> SchemaClass {
    SchemaClass {
        systemmust: texts(systemmust),
        must: texts(must),
        systemmay: texts(systemmay),
        may: texts(may),
    }
}

fn schema() -> SchemaReadTransaction<Kind> {
    let mut classes = StringMap::new();
    classes.insert(text("object"), class(&["class"], &[], &["description"], &["mail"]));
    classes.insert(text("person"), class(&["name"], &["uidnumber"], &[], &["nickname"]));
    classes.insert(text("extensibleobject"), class(&[], &[], &[], &[]));
    classes.insert(text("broken"), class(&[], &["unheardof"], &[], &[]));
    let mut attributes = StringMap::new();
    attributes.insert(text("class"), attribute(true, Kind::Insensitive));
    attributes.insert(text("name"), attribute(false, Kind::Insensitive));
    attributes.insert(text("mail"), attribute(true, Kind::Insensitive));
    attributes.insert(text("description"), attribute(true, Kind::Insensitive));
    attributes.insert(text("uidnumber"), attribute(false, Kind::Number));
    SchemaReadTransaction { classes, attributes }
}

fn attribute(multivalue: bool, syntax: Kind) -> SchemaAttribute<Kind> {
    SchemaAttribute { multivalue, syntax }
}

fn entry(avas: &[(&str, &[&str])]) -> Entry<EntryInvalid, EntryNew> {
    let mut e: Entry<EntryInvalid, EntryNew> = Entry::new();
    for (name, values) in avas {
        e.set_avas(text(name), texts(values));
    }
    e
}

fn outcome(avas: &[(&str, &[&str])]) -> Result<Entry<EntryValid, EntryNew>, SchemaError> {
    entry(avas).validate(&schema())
}

fn error(avas: &[(&str, &[&str])]) -> Option<SchemaError> {
    outcome(avas).err()
}

#[test]
fn a_good_entry_is_valid() {
    let mut e = entry(&[
        ("class", &["object", "person"]),
        ("name", &["william"]),
        ("uidnumber", &["1000"]),
    ]);
    e.id = Some(4);
    let valid = e.clone().validate(&schema()).unwrap();
    assert_eq!(valid.id, Some(4));
    // Names and values were in normal form already.
    assert!(valid.invalidate() == e);
}

#[test]
fn names_and_values_are_normalised() {
    let valid = outcome(&[
        ("Class", &["Object", "EXTENSIBLEOBJECT"]),
        ("MAIL", &["B@example", "a@Example"]),
        ("Other", &["As It Is"]),
    ])
    .unwrap();
    assert_eq!(valid.get_ava(&text("class")), Some(&texts(&["object", "extensibleobject"])));
    // The order of the values stays.
    assert_eq!(valid.get_ava(&text("mail")), Some(&texts(&["b@example", "a@example"])));
    assert_eq!(valid.get_ava(&text("other")), Some(&texts(&["As It Is"])));
    assert!(!valid.attribute_pres("Class"));
}

#[test]
fn of_two_names_with_one_normal_form_the_last_counts() {
    let valid = outcome(&[
        ("class", &["object"]),
        ("MAIL", &["upper"]),
        ("Mail", &["mixed"]),
        ("mail", &["lower"]),
    ])
    .unwrap();
    assert_eq!(valid.get_ava(&text("mail")), Some(&texts(&["lower"])));
}

#[test]
fn a_schema_without_name_is_corrupted() {
    let mut s = schema();
    s.attributes.remove("name");
    let e = entry(&[("class", &["object"])]);
    assert_eq!(e.clone().validate(&s).err(), Some(SchemaError::Corrupted));
    assert_eq!(e.clone().normalise(&s).err(), Some(SchemaError::Corrupted));
    // Even an entry without attributes is refused so.
    let empty: Entry<EntryInvalid, EntryNew> = Entry::new();
    assert_eq!(empty.validate(&s).err(), Some(SchemaError::Corrupted));
}

#[test]
fn unknown_classes_are_invalid() {
    assert_eq!(error(&[("class", &["object", "unicorn"])]), Some(SchemaError::InvalidClass));
}

#[test]
fn a_class_named_twice_is_invalid() {
    assert_eq!(error(&[("class", &["object", "object"])]), Some(SchemaError::InvalidClass));
    assert_eq!(error(&[("class", &["object", "Object"])]), Some(SchemaError::InvalidClass));
}

#[test]
fn no_class_value_requires_and_allows_nothing() {
    assert_eq!(error(&[("class", &[])]), Some(SchemaError::InvalidAttribute));
}

#[test]
fn required_attributes_must_be_there() {
    assert_eq!(
        error(&[("class", &["person"]), ("name", &["w"])]),
        Some(SchemaError::MissingMustAttribute(text("uidnumber")))
    );
    assert_eq!(
        error(&[("class", &["person"]), ("uidnumber", &["1"])]),
        Some(SchemaError::MissingMustAttribute(text("name")))
    );
    match error(&[("class", &["person"])]) {
        Some(SchemaError::MissingMustAttribute(attr)) => {
            assert!(attr == "name" || attr == "uidnumber");
        }
        other => panic!("{:?}", other),
    }
}

#[test]
fn a_required_attribute_may_be_empty() {
    assert!(outcome(&[("class", &["object", "person"]), ("name", &[]), ("uidnumber", &[])])
        .is_ok());
}

#[test]
fn values_are_checked() {
    assert_eq!(
        error(&[("class", &["object", "person"]), ("name", &["w"]), ("uidnumber", &["1", "one"])]),
        Some(SchemaError::InvalidAttributeSyntax)
    );
    // An extensible object is checked, too, in what the schema knows.
    assert_eq!(
        error(&[("class", &["extensibleobject"]), ("uidnumber", &["one"])]),
        Some(SchemaError::InvalidAttributeSyntax)
    );
}

#[test]
fn attributes_must_be_allowed_by_a_class() {
    // Each of the four lists allows.
    assert!(outcome(&[
        ("class", &["object", "person"]),
        ("description", &["d"]),
        ("mail", &["m"]),
        ("name", &["w"]),
        ("uidnumber", &["1"]),
    ])
    .is_ok());
    // The schema knows the attribute, but no class of the entry allows it.
    assert_eq!(
        error(&[("class", &["object"]), ("name", &["w"])]),
        Some(SchemaError::InvalidAttribute)
    );
    // So even if its values are not good.
    assert_eq!(
        error(&[("class", &["object"]), ("uidnumber", &["one"])]),
        Some(SchemaError::InvalidAttribute)
    );
    assert!(outcome(&[("class", &["object", "extensibleobject"]), ("name", &["w"])]).is_ok());
    // A class allows it, but the schema does not know it.
    assert_eq!(
        error(&[
            ("class", &["object", "person"]),
            ("name", &["w"]),
            ("nickname", &["bill"]),
            ("uidnumber", &["1"]),
        ]),
        Some(SchemaError::InvalidAttribute)
    );
    // A class that does not allow `class` is not enough by itself.
    assert_eq!(
        error(&[("class", &["person"]), ("name", &["w"]), ("uidnumber", &["1"])]),
        Some(SchemaError::InvalidAttribute)
    );
}

#[test]
fn allowed_attributes_are_looked_up() {
    let s = schema();
    assert!(s.is_allowed(&texts(&["object"]), "class"));
    assert!(s.is_allowed(&texts(&["object"]), "description"));
    assert!(s.is_allowed(&texts(&["person", "object"]), "mail"));
    assert!(s.is_allowed(&texts(&["unicorn", "person"]), "uidnumber"));
    assert!(!s.is_allowed(&texts(&["person"]), "mail"));
    assert!(!s.is_allowed(&texts(&["unicorn"]), "class"));
    assert!(!s.is_allowed(&[].to_vec(), "class"));
    assert!(class(&[], &[], &[], &["a"]).allows("a"));
    assert!(!class(&["b"], &["c"], &["d"], &["a"]).allows("e"));
}

#[test]
fn unknown_attributes_need_an_extensible_object() {
    assert_eq!(
        error(&[("class", &["object"]), ("colour", &["blue"])]),
        Some(SchemaError::InvalidAttribute)
    );
    assert!(outcome(&[("class", &["object", "extensibleobject"]), ("colour", &["blue"])]).is_ok());
}

#[test]
fn the_first_failure_in_the_order_of_names_counts() {
    assert_eq!(
        error(&[("class", &["object"]), ("colour", &["blue"]), ("uidnumber", &["one"])]),
        Some(SchemaError::InvalidAttribute)
    );
    assert_eq!(
        error(&[
            ("class", &["object", "person"]),
            ("name", &["w"]),
            ("uidnumber", &["one"]),
            ("zoo", &["blue"]),
        ]),
        Some(SchemaError::InvalidAttributeSyntax)
    );
}

#[test]
fn what_cannot_be_checked_is_told() {
    let s = schema();
    assert!(entry(&[("name", &["w"])]).try_validate(&s).is_none());
    assert!(entry(&[("class", &["broken"])]).try_validate(&s).is_none());
    assert!(!entry(&[("class", &["broken"])]).is_checkable(&s));
    assert!(!entry(&[("name", &["w"])]).is_checkable(&s));
    // With an invalid class it does not matter what the other requires.
    let both = entry(&[("class", &["broken", "unicorn"])]);
    assert!(both.is_checkable(&s));
    assert_eq!(both.try_validate(&s).unwrap().err(), Some(SchemaError::InvalidClass));
    assert!(s.knows_requirements(&texts(&["object", "person", "unicorn"])));
    assert!(!s.knows_requirements(&texts(&["object", "broken"])));
}

#[test]
fn check_of_a_normal_entry() {
    let s = schema();
    let e = entry(&[("class", &["object"]), ("mail", &["x"])]);
    assert_eq!(e.check(&s), Ok(()));
    let e = entry(&[("class", &["Object"])]);
    assert_eq!(e.check(&s), Err(SchemaError::InvalidClass));
}

#[test]
fn verdict_on_an_attribute() {
    let bad = || Some(Err(SchemaError::InvalidAttributeSyntax));
    assert_eq!(judge_ava(Some(Ok(())), true, false), Ok(()));
    assert_eq!(judge_ava(Some(Ok(())), false, true), Ok(()));
    assert_eq!(judge_ava(Some(Ok(())), false, false), Err(SchemaError::InvalidAttribute));
    assert_eq!(judge_ava(bad(), true, false), Err(SchemaError::InvalidAttributeSyntax));
    assert_eq!(judge_ava(bad(), false, true), Err(SchemaError::InvalidAttributeSyntax));
    assert_eq!(judge_ava(bad(), false, false), Err(SchemaError::InvalidAttribute));
    assert_eq!(judge_ava(None, false, true), Ok(()));
    assert_eq!(judge_ava(None, true, true), Ok(()));
    assert_eq!(judge_ava(None, false, false), Err(SchemaError::InvalidAttribute));
    assert_eq!(judge_ava(None, true, false), Err(SchemaError::InvalidAttribute));
}

#[test]
fn multivalue_is_looked_up() {
    let s = schema();
    assert_eq!(s.is_multivalue("mail"), Ok(true));
    assert_eq!(s.is_multivalue("name"), Ok(false));
    assert!(s.is_multivalue("colour").is_err());
    assert_eq!(s.get_classes().len(), 4);
    assert!(s.get_attributes().contains_key("class"));
}

#[test]
fn modlist_of_an_entry() {
    let e = entry(&[("name", &["w"]), ("mail", &["a", "b"])]).to_valid_new();
    assert_eq!(
        e.gen_modlist_assert(&schema()),
        Ok(ModifyList::new_list(vec![
            Modify::Present(text("mail"), text("a")),
            Modify::Present(text("mail"), text("b")),
            Modify::Purged(text("name")),
            Modify::Present(text("name"), text("w")),
        ]))
    );
}

#[test]
fn modlist_needs_known_attributes() {
    let e = entry(&[("name", &["w"]), ("colour", &["blue"])]).to_valid_new();
    assert_eq!(e.gen_modlist_assert(&schema()), Err(()));
    let empty = entry(&[]).to_valid_new();
    assert_eq!(empty.gen_modlist_assert(&schema()), Ok(ModifyList::new()));
}

#[test]
fn asserted_values_are_there_afterwards() {
    let e = entry(&[("name", &["w"]), ("mail", &["a", "b"])]).to_valid_new();
    let mods = e.gen_modlist_assert(&schema()).unwrap();
    let target = entry(&[("name", &["old"]), ("mail", &["b", "c"]), ("other", &["x"])]);
    let ne = target.apply_modlist(&mods).unwrap();
    assert_eq!(ne.get_ava(&text("name")), Some(&texts(&["w"])));
    assert_eq!(ne.get_ava(&text("mail")), Some(&texts(&["a", "b", "c"])));
    assert_eq!(ne.get_ava(&text("other")), Some(&texts(&["x"])));
}

#[test]
fn asserting_an_entry_on_itself_changes_nothing() {
    let e = entry(&[("name", &["w"]), ("mail", &["a", "b"])]);
    let mods = e.clone().to_valid_new().gen_modlist_assert(&schema()).unwrap();
    assert!(e.apply_modlist(&mods).unwrap() == e);
}
