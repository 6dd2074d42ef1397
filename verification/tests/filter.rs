use directory_entry::entry::{Entry, EntryInvalid, EntryNew, EntryValid};
use directory_entry::filter::Filter;

fn text(s: &str) -> String {
    String::from(s)
}

fn eq(attr: &str, value: &str) -> Filter {
    Filter::Eq(text(attr), text(value))
}

fn pres(attr: &str) -> Filter {
    Filter::Pres(text(attr))
}

fn sub(attr: &str, value: &str) -> Filter {
    Filter::Sub(text(attr), text(value))
}

fn not(f: Filter) -> Filter {
    Filter::Not(Box::new(f))
}

fn sample() -> Entry<EntryValid, EntryNew> {
    let mut e: Entry<EntryInvalid, EntryNew> = Entry::new();
    e.add_ava(text("userid"), text("william"));
    e.add_ava(text("class"), text("person"));
    e.add_ava(text("class"), text("account"));
    e.to_valid_new()
}

#[test]
fn equality_and_presence() {
    let e = sample();
    assert!(e.entry_match_no_index(&eq("userid", "william")));
    assert!(!e.entry_match_no_index(&eq("userid", "claire")));
    assert!(!e.entry_match_no_index(&eq("name", "william")));
    assert!(e.entry_match_no_index(&eq("class", "person")));
    assert!(e.entry_match_no_index(&pres("class")));
    assert!(!e.entry_match_no_index(&pres("name")));
}

#[test]
fn or_needs_one() {
    let e = sample();
    assert!(!e.entry_match_no_index(&Filter::Or(vec![])));
    assert!(e.entry_match_no_index(&Filter::Or(vec![pres("name"), pres("class")])));
    assert!(!e.entry_match_no_index(&Filter::Or(vec![pres("name"), eq("class", "x")])));
}

#[test]
fn and_needs_all() {
    let e = sample();
    assert!(e.entry_match_no_index(&Filter::And(vec![])));
    assert!(e.entry_match_no_index(&Filter::And(vec![pres("userid"), pres("class")])));
    assert!(!e.entry_match_no_index(&Filter::And(vec![pres("userid"), pres("name")])));
}

#[test]
fn not_turns_it_round() {
    let e = sample();
    assert!(!e.entry_match_no_index(&not(pres("class"))));
    assert!(e.entry_match_no_index(&not(pres("name"))));
    assert!(e.entry_match_no_index(&not(not(pres("class")))));
    assert!(e.entry_match_no_index(&not(Filter::And(vec![
        pres("class"),
        Filter::Or(vec![pres("name"), not(eq("userid", "william"))]),
    ]))));
}

#[test]
fn evaluation_stops_before_a_substring() {
    let e = sample();
    assert!(e.entry_match_no_index(&Filter::Or(vec![pres("class"), sub("class", "per")])));
    assert!(!e.entry_match_no_index(&Filter::And(vec![pres("name"), sub("class", "per")])));
}

#[test]
fn filter_of_attributes() {
    let e = sample();
    let f = e.filter_from_attrs(&vec![text("userid"), text("class")]);
    assert_eq!(
        f,
        Some(Filter::And(vec![
            eq("userid", "william"),
            eq("class", "account"),
            eq("class", "person"),
        ]))
    );
    assert_eq!(e.filter_from_attrs(&vec![text("userid"), text("name")]), None);
    assert_eq!(e.filter_from_attrs(&vec![]), Some(Filter::And(vec![])));
}

#[test]
fn own_filter_matches() {
    let e = sample();
    let f = e.filter_from_attrs(&vec![text("class"), text("userid"), text("class")]).unwrap();
    assert!(e.entry_match_no_index(&f));
    let mut other = sample().invalidate();
    other.remove_ava(&text("class"), &text("person"));
    assert!(!other.to_valid_new().entry_match_no_index(&f));
    let mut more = sample().invalidate();
    more.add_ava(text("class"), text("zebra"));
    assert!(more.to_valid_new().entry_match_no_index(&f));
}

#[test]
fn it_is_told_whether_a_substring_is_met() {
    let e = sample();
    assert!(e.is_evaluable(&eq("userid", "x")));
    assert!(e.is_evaluable(&pres("name")));
    assert!(!e.is_evaluable(&sub("userid", "will")));
    assert!(!e.is_evaluable(&not(sub("userid", "will"))));
    assert!(e.is_evaluable(&not(eq("userid", "x"))));
    assert!(e.is_evaluable(&Filter::Or(vec![])));
    assert!(e.is_evaluable(&Filter::And(vec![])));
    // A disjunction is asked up to the first that matches.
    assert!(e.is_evaluable(&Filter::Or(vec![pres("name"), pres("class"), sub("class", "p")])));
    assert!(!e.is_evaluable(&Filter::Or(vec![pres("name"), sub("class", "p"), pres("class")])));
    // A conjunction is asked up to the first that does not match.
    assert!(e.is_evaluable(&Filter::And(vec![pres("class"), pres("name"), sub("class", "p")])));
    assert!(!e.is_evaluable(&Filter::And(vec![pres("class"), sub("class", "p"), pres("name")])));
    assert!(!e.is_evaluable(&Filter::And(vec![Filter::Or(vec![sub("class", "p")])])));
}
