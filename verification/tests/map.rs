use directory_entry::map::StringMap;
use directory_entry::order::{relate, same, Relation};
use directory_entry::values::{contains, copy_list, same_list, search, sorted_copy};

fn texts(l: &[&str]) -> Vec<String> {
    l.iter().map(|s| String::from(*s)).collect()
}

#[test]
fn strings_are_ordered_as_in_std() {
    let all = ["", "a", "ab", "b", "A", "\u{7f}", "\u{80}", "\u{7ff}", "\u{ffff}", "\u{10ffff}"];
    for a in all {
        for b in all {
            match relate(a, b) {
                Relation::Before => assert!(a < b),
                Relation::Same => assert!(a == b),
                Relation::After => assert!(a > b),
            }
            assert_eq!(same(a, b), a == b);
        }
    }
}

#[test]
fn search_finds_values_and_places() {
    let v = texts(&["b", "d", "f", "h"]);
    assert_eq!(search(&v, "b"), Ok(0));
    assert_eq!(search(&v, "h"), Ok(3));
    assert_eq!(search(&v, "a"), Err(0));
    assert_eq!(search(&v, "c"), Err(1));
    assert_eq!(search(&v, "g"), Err(3));
    assert_eq!(search(&v, "z"), Err(4));
    assert_eq!(search(&Vec::new(), "z"), Err(0));
}

#[test]
fn lists() {
    let v = texts(&["c", "a", "b", "a"]);
    assert!(contains(&v, "b"));
    assert!(!contains(&v, "d"));
    assert!(same_list(&v, &copy_list(&v)));
    assert!(!same_list(&v, &texts(&["c", "a", "b"])));
    assert!(!same_list(&v, &texts(&["c", "a", "a", "b"])));
    assert_eq!(sorted_copy(&v), texts(&["a", "a", "b", "c"]));
}

#[test]
fn map_holds_one_item_for_a_name() {
    let mut m: StringMap<u8> = StringMap::new();
    assert_eq!(m.insert(String::from("b"), 1), None);
    assert_eq!(m.insert(String::from("a"), 2), None);
    assert_eq!(m.insert(String::from("b"), 3), Some(1));
    assert_eq!(m.len(), 2);
    assert_eq!(m.name_at(0), "a");
    assert_eq!(*m.item_at(1), 3);
    assert_eq!(m.get("b"), Some(&3));
    assert_eq!(m.get("c"), None);
    if let Some(x) = m.get_mut("a") {
        *x = 9;
    }
    assert!(m.get_mut("z").is_none());
    assert_eq!(m.remove("a"), Some(9));
    assert_eq!(m.remove("a"), None);
    assert!(!m.contains_key("a"));
    assert!(m.contains_key("b"));
}
