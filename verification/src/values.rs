//! Lists of string values, which are searched by halving.

use vstd::prelude::*;

use crate::order;
use crate::order::Relation;

verus! {

/// The strings that a list holds.
pub open spec fn strings(v: Seq<String>) -> Seq<Seq<char>> {
    v.map_values(|s: String| s@)
}

/// No string comes before one that stands to its left.
pub open spec fn sorted(s: Seq<Seq<char>>) -> bool {
    forall|i: int, j: int| 0 <= i <= j < s.len() ==> #[trigger] order::str_le(s[i], s[j])
}

/// Each string comes before all those that stand to its right.
pub open spec fn ascending(s: Seq<Seq<char>>) -> bool {
    forall|i: int, j: int| 0 <= i < j < s.len() ==> #[trigger] order::str_lt(s[i], s[j])
}

/// The place in `s` right behind the last string that is before `value`.
pub open spec fn place(s: Seq<Seq<char>>, value: Seq<char>) -> int
    decreases s.len(),
{
    if s.len() == 0 {
        0
    } else if order::str_lt(s.last(), value) {
        s.len() as int
    } else {
        place(s.drop_last(), value)
    }
}

/// What a search for `value` by halving comes to between the places `low` and `high` of `s`, in
/// whatever order `s` is: the place where `value` was found, or that where the search ended
/// without it.
pub open spec fn searched_in(
    s: Seq<Seq<char>>,
    value: Seq<char>,
    low: int,
    high: int,
) -> Result<int, int>
    decreases high - low,
{
    if low >= high {
        Err(low)
    } else {
        let mid = low + (high - low) / 2;
        if s[mid] == value {
            Ok(mid)
        } else if order::str_lt(s[mid], value) {
            searched_in(s, value, mid + 1, high)
        } else {
            searched_in(s, value, low, mid)
        }
    }
}

/// What a search for `value` by halving comes to in all of `s`.
pub open spec fn searched(s: Seq<Seq<char>>, value: Seq<char>) -> Result<int, int> {
    searched_in(s, value, 0, s.len() as int)
}

/// `s` after `value` was added. In sorted strings it is put in its place, unless it is there.
/// In others the search by halving, for what it is worth there, tells whether it is there and
/// where it is put.
pub open spec fn with_value(s: Seq<Seq<char>>, value: Seq<char>) -> Seq<Seq<char>> {
    if sorted(s) {
        if s.contains(value) {
            s
        } else {
            s.insert(place(s, value), value)
        }
    } else {
        match searched(s, value) {
            Ok(_) => s,
            Err(i) => s.insert(i, value),
        }
    }
}

/// `s` after `value` was removed. From sorted strings it is taken once, if it is there. From
/// others it is taken where the search by halving finds it, if it does.
pub open spec fn without_value(s: Seq<Seq<char>>, value: Seq<char>) -> Seq<Seq<char>> {
    if sorted(s) {
        if s.contains(value) {
            s.remove(s.index_of_first(value).unwrap())
        } else {
            s
        }
    } else {
        match searched(s, value) {
            Ok(i) => s.remove(i),
            Err(_) => s,
        }
    }
}

/// Where a search finds something, it is what was looked for.
pub proof fn lemma_searched_in(s: Seq<Seq<char>>, value: Seq<char>, low: int, high: int)
    requires
        0 <= low <= high <= s.len(),
    ensures
        match searched_in(s, value, low, high) {
            Ok(i) => low <= i < high && s[i] == value,
            Err(i) => low <= i <= high,
        },
    decreases high - low,
{
    if low < high {
        let mid = low + (high - low) / 2;
        lemma_searched_in(s, value, mid + 1, high);
        lemma_searched_in(s, value, low, mid);
    }
}

/// Adding puts the value somewhere, or leaves the strings as they are if it is there.
pub proof fn lemma_with_value(s: Seq<Seq<char>>, value: Seq<char>)
    ensures
        (with_value(s, value) == s && s.contains(value)) || exists|i: int|
            0 <= i <= s.len() && with_value(s, value) == #[trigger] s.insert(i, value),
{
    if sorted(s) {
        lemma_place_cuts(s, value);
    } else {
        lemma_searched_in(s, value, 0, s.len() as int);
    }
}

/// Removing takes the value out of one place, or leaves the strings as they are.
pub proof fn lemma_without_value(s: Seq<Seq<char>>, value: Seq<char>)
    ensures
        without_value(s, value) == s || exists|i: int|
            0 <= i < s.len() && s[i] == value && without_value(s, value) == #[trigger] s.remove(i),
{
    if sorted(s) {
        if s.contains(value) {
            s.index_of_first_ensures(value);
        }
    } else {
        lemma_searched_in(s, value, 0, s.len() as int);
    }
}

/// An ascending list is sorted and holds nothing twice.
pub proof fn lemma_ascending_is_sorted(s: Seq<Seq<char>>)
    requires
        ascending(s),
    ensures
        sorted(s),
        s.no_duplicates(),
{
    assert forall|i: int, j: int| 0 <= i <= j < s.len() implies #[trigger] order::str_le(
        s[i],
        s[j],
    ) by {
        if i < j {
            assert(order::str_lt(s[i], s[j]));
        }
    }
    assert forall|i: int, j: int| 0 <= i < s.len() && 0 <= j < s.len() && i != j implies s[i]
        != s[j] by {
        if i < j {
            assert(order::str_lt(s[i], s[j]));
            order::lemma_lt_asymmetric(s[i], s[j]);
        } else {
            assert(order::str_lt(s[j], s[i]));
            order::lemma_lt_asymmetric(s[j], s[i]);
        }
    }
}

/// A sorted list that holds nothing twice is ascending.
pub proof fn lemma_sorted_distinct_is_ascending(s: Seq<Seq<char>>)
    requires
        sorted(s),
        s.no_duplicates(),
    ensures
        ascending(s),
{
    assert forall|i: int, j: int| 0 <= i < j < s.len() implies #[trigger] order::str_lt(
        s[i],
        s[j],
    ) by {
        assert(order::str_le(s[i], s[j]));
    }
}

/// There is only one ascending list of given strings.
pub proof fn lemma_ascending_unique(s: Seq<Seq<char>>, t: Seq<Seq<char>>)
    requires
        ascending(s),
        ascending(t),
        forall|v: Seq<char>| #[trigger] s.contains(v) <==> t.contains(v),
    ensures
        s == t,
{
    lemma_ascending_is_sorted(s);
    lemma_ascending_is_sorted(t);
    s.lemma_multiset_has_no_duplicates();
    t.lemma_multiset_has_no_duplicates();
    s.to_multiset_ensures();
    t.to_multiset_ensures();
    assert forall|v: Seq<char>| s.to_multiset().count(v) == t.to_multiset().count(v) by {
        assert(s.contains(v) <==> t.contains(v));
        assert(s.contains(v) <==> s.to_multiset().contains(v));
        assert(t.contains(v) <==> t.to_multiset().contains(v));
    }
    assert(s.to_multiset() =~= t.to_multiset());
    lemma_sorted_unique(s, t);
}

/// Where a list is cut into strings before `value` and strings that are not, the cut is at
/// the place of `value`.
pub proof fn lemma_place_is_cut(s: Seq<Seq<char>>, value: Seq<char>, n: int)
    requires
        0 <= n <= s.len(),
        forall|i: int| 0 <= i < n ==> order::str_lt(#[trigger] s[i], value),
        forall|i: int| n <= i < s.len() ==> !order::str_lt(#[trigger] s[i], value),
    ensures
        place(s, value) == n,
    decreases s.len(),
{
    if s.len() > n {
        assert(s.last() == s[s.len() - 1]);
        lemma_place_is_cut(s.drop_last(), value, n);
    } else if s.len() > 0 {
        assert(s.last() == s[s.len() - 1]);
    }
}

/// In a sorted list the strings before `value` stand to the left of its place, and no
/// others.
pub proof fn lemma_place_cuts(s: Seq<Seq<char>>, value: Seq<char>)
    requires
        sorted(s),
    ensures
        0 <= place(s, value) <= s.len(),
        forall|i: int| 0 <= i < place(s, value) ==> order::str_lt(#[trigger] s[i], value),
        forall|i: int| place(s, value) <= i < s.len() ==> !order::str_lt(#[trigger] s[i], value),
    decreases s.len(),
{
    if s.len() == 0 {
    } else if order::str_lt(s.last(), value) {
        assert forall|i: int| 0 <= i < s.len() implies order::str_lt(#[trigger] s[i], value) by {
            assert(order::str_le(s[i], s[s.len() - 1]));
            if s[i] != s.last() {
                order::lemma_lt_transitive(s[i], s.last(), value);
            }
        }
    } else {
        let t = s.drop_last();
        assert forall|i: int, j: int| 0 <= i <= j < t.len() implies #[trigger] order::str_le(
            t[i],
            t[j],
        ) by {
            assert(order::str_le(s[i], s[j]));
        }
        lemma_place_cuts(t, value);
        assert forall|i: int| place(s, value) <= i < s.len() implies !order::str_lt(
            #[trigger] s[i],
            value,
        ) by {
            if i < t.len() {
                assert(s[i] == t[i]);
            }
        }
        assert forall|i: int| 0 <= i < place(s, value) implies order::str_lt(
            #[trigger] s[i],
            value,
        ) by {
            assert(s[i] == t[i]);
        }
    }
}

/// Putting a value in its place keeps a list sorted.
pub proof fn lemma_with_value_sorted(s: Seq<Seq<char>>, value: Seq<char>)
    requires
        sorted(s),
    ensures
        sorted(with_value(s, value)),
{
    if !s.contains(value) {
        lemma_place_cuts(s, value);
        let p = place(s, value);
        let r = s.insert(p, value);
        assert forall|i: int, j: int| 0 <= i <= j < r.len() implies #[trigger] order::str_le(
            r[i],
            r[j],
        ) by {
            if i == p && j > p {
                order::lemma_lt_total(value, s[j - 1]);
                assert(s[j - 1] != value);
            } else if j == p && i < p {
                assert(order::str_lt(s[i], value));
            } else if i != p && j != p {
                let a = if i < p { i } else { i - 1 };
                let b = if j < p { j } else { j - 1 };
                assert(order::str_le(s[a], s[b]));
            }
        }
    }
}

/// Putting a new string in its place keeps a list ascending.
pub proof fn lemma_insert_ascending(s: Seq<Seq<char>>, value: Seq<char>)
    requires
        ascending(s),
        !s.contains(value),
    ensures
        0 <= place(s, value) <= s.len(),
        ascending(s.insert(place(s, value), value)),
{
    lemma_ascending_is_sorted(s);
    lemma_place_cuts(s, value);
    lemma_with_value_sorted(s, value);
    let p = place(s, value);
    let r = s.insert(p, value);
    assert forall|i: int, j: int| 0 <= i < r.len() && 0 <= j < r.len() && i != j implies r[i]
        != r[j] by {
        let a = if i < p { i } else { i - 1 };
        let b = if j < p { j } else { j - 1 };
        if i == p {
            assert(r[j] == s[b]);
        } else if j == p {
            assert(r[i] == s[a]);
        } else {
            assert(s[a] != s[b]);
        }
    }
    lemma_sorted_distinct_is_ascending(r);
}

/// Taking a string out keeps a list ascending.
pub proof fn lemma_remove_ascending(s: Seq<Seq<char>>, k: int)
    requires
        ascending(s),
        0 <= k < s.len(),
    ensures
        ascending(s.remove(k)),
{
    let r = s.remove(k);
    assert forall|i: int, j: int| 0 <= i < j < r.len() implies #[trigger] order::str_lt(
        r[i],
        r[j],
    ) by {
        let a = if i < k { i } else { i + 1 };
        let b = if j < k { j } else { j + 1 };
        assert(order::str_lt(s[a], s[b]));
    }
}

/// Taking a string out keeps a list sorted.
pub proof fn lemma_remove_sorted(s: Seq<Seq<char>>, k: int)
    requires
        sorted(s),
        0 <= k < s.len(),
    ensures
        sorted(s.remove(k)),
{
    let r = s.remove(k);
    assert forall|i: int, j: int| 0 <= i <= j < r.len() implies #[trigger] order::str_le(
        r[i],
        r[j],
    ) by {
        let a = if i < k { i } else { i + 1 };
        let b = if j < k { j } else { j + 1 };
        assert(order::str_le(s[a], s[b]));
    }
}

/// In a sorted list it makes no difference which of several equal strings is taken out.
pub proof fn lemma_remove_any(s: Seq<Seq<char>>, value: Seq<char>, k: int)
    requires
        sorted(s),
        0 <= k < s.len(),
        s[k] == value,
    ensures
        without_value(s, value) == s.remove(k),
{
    s.index_of_first_ensures(value);
    let f = s.index_of_first(value).unwrap();
    assert(f <= k);
    assert forall|i: int| f <= i <= k implies s[i] == value by {
        assert(order::str_le(s[f], s[i]));
        assert(order::str_le(s[i], s[k]));
        if s[i] != value {
            order::lemma_lt_asymmetric(s[i], value);
        }
    }
    assert(s.remove(f) =~= s.remove(k));
}

/// Looks for `value` by halving. In a sorted list it is found, at one of its places, if it
/// is there; if not, the place where it belongs is returned. In another list it may be missed.
pub fn search(values: &Vec<String>, value: &str) -> (r: Result<usize, usize>)
    ensures
        searched(strings(values@), value@) == (match r {
            Ok(i) => Ok::<int, int>(i as int),
            Err(i) => Err::<int, int>(i as int),
        }),
        r matches Ok(i) ==> i < values@.len() && values@[i as int]@ == value@,
        r matches Err(i) ==> i <= values@.len(),
        sorted(strings(values@)) ==> (r is Ok <==> strings(values@).contains(value@)),
        r matches Err(i) ==> (sorted(strings(values@)) ==> i == place(strings(values@), value@)),
{
    let ghost s = strings(values@);
    let mut low: usize = 0;
    let mut high: usize = values.len();
    while low < high
        invariant
            s == strings(values@),
            low <= high <= values@.len(),
            searched(s, value@) == searched_in(s, value@, low as int, high as int),
            sorted(s) ==> forall|i: int| 0 <= i < low ==> order::str_lt(#[trigger] s[i], value@),
            sorted(s) ==> forall|i: int|
                high <= i < s.len() ==> order::str_lt(value@, #[trigger] s[i]),
        decreases high - low,
    {
        let mid: usize = low + (high - low) / 2;
        assert(s[mid as int] == values@[mid as int]@);
        match order::relate(values[mid].as_str(), value) {
            Relation::Same => {
                assert(s.contains(value@));
                return Ok(mid);
            },
            Relation::Before => {
                proof {
                    order::lemma_lt_irreflexive(value@);
                    if sorted(s) {
                        assert forall|i: int| 0 <= i < mid + 1 implies order::str_lt(
                            #[trigger] s[i],
                            value@,
                        ) by {
                            assert(order::str_le(s[i], s[mid as int]));
                            if s[i] != s[mid as int] {
                                order::lemma_lt_transitive(s[i], s[mid as int], value@);
                            }
                        }
                    }
                }
                low = mid + 1;
            },
            Relation::After => {
                proof {
                    order::lemma_lt_irreflexive(value@);
                    order::lemma_lt_asymmetric(value@, s[mid as int]);
                    if sorted(s) {
                        assert forall|i: int| mid <= i < s.len() implies order::str_lt(
                            value@,
                            #[trigger] s[i],
                        ) by {
                            assert(order::str_le(s[mid as int], s[i]));
                            if s[i] != s[mid as int] {
                                order::lemma_lt_transitive(value@, s[mid as int], s[i]);
                            }
                        }
                    }
                }
                high = mid;
            },
        }
    }
    proof {
        if sorted(s) {
            assert forall|i: int| 0 <= i < s.len() implies #[trigger] s[i] != value@ by {
                order::lemma_lt_irreflexive(value@);
            }
            assert forall|i: int| low <= i < s.len() implies !order::str_lt(
                #[trigger] s[i],
                value@,
            ) by {
                order::lemma_lt_asymmetric(value@, s[i]);
            }
            lemma_place_is_cut(s, value@, low as int);
        }
    }
    Err(low)
}

/// Tells whether a list holds `value`, in whatever order it is.
pub fn contains(values: &Vec<String>, value: &str) -> (r: bool)
    ensures
        r == strings(values@).contains(value@),
{
    let ghost s = strings(values@);
    for i in 0..values.len()
        invariant
            s == strings(values@),
            forall|j: int| 0 <= j < i ==> #[trigger] s[j] != value@,
    {
        assert(s[i as int] == values@[i as int]@);
        if order::same(values[i].as_str(), value) {
            return true;
        }
    }
    false
}

/// Tells whether two lists hold the same strings in the same order.
pub fn same_list(a: &Vec<String>, b: &Vec<String>) -> (r: bool)
    ensures
        r == (strings(a@) == strings(b@)),
{
    let ghost s = strings(a@);
    let ghost t = strings(b@);
    if a.len() != b.len() {
        assert(s.len() != t.len());
        return false;
    }
    for i in 0..a.len()
        invariant
            s == strings(a@),
            t == strings(b@),
            a@.len() == b@.len(),
            forall|j: int| 0 <= j < i ==> #[trigger] s[j] == t[j],
    {
        assert(s[i as int] == a@[i as int]@ && t[i as int] == b@[i as int]@);
        if !order::same(a[i].as_str(), b[i].as_str()) {
            return false;
        }
    }
    assert(s =~= t);
    true
}

/// Copies a list.
pub fn copy_list(values: &Vec<String>) -> (r: Vec<String>)
    ensures
        strings(r@) == strings(values@),
{
    let mut r: Vec<String> = Vec::new();
    for i in 0..values.len()
        invariant
            r@.len() == i,
            forall|j: int| 0 <= j < i ==> #[trigger] r@[j]@ == values@[j]@,
    {
        r.push(values[i].clone());
    }
    assert(strings(r@) =~= strings(values@));
    r
}

/// A string put before an equal one keeps a list sorted.
proof fn lemma_insert_equal_sorted(s: Seq<Seq<char>>, value: Seq<char>, k: int)
    requires
        sorted(s),
        0 <= k < s.len(),
        s[k] == value,
    ensures
        sorted(s.insert(k, value)),
{
    let r = s.insert(k, value);
    assert forall|i: int, j: int| 0 <= i <= j < r.len() implies #[trigger] order::str_le(
        r[i],
        r[j],
    ) by {
        let a = if i <= k { i } else { i - 1 };
        let b = if j <= k { j } else { j - 1 };
        assert(r[i] == s[a] && r[j] == s[b]);
        assert(order::str_le(s[a], s[b]));
    }
}

/// The relation by which sorted lists are sorted is a total order.
proof fn lemma_total_order()
    ensures
        vstd::relations::total_ordering(|a: Seq<char>, b: Seq<char>| order::str_le(a, b)),
{
    let le = |a: Seq<char>, b: Seq<char>| order::str_le(a, b);
    assert forall|a: Seq<char>, b: Seq<char>| #[trigger] le(a, b) && #[trigger] le(b, a) implies a
        == b by {
        if a != b {
            order::lemma_lt_asymmetric(a, b);
        }
    }
    assert forall|a: Seq<char>, b: Seq<char>, c: Seq<char>| #[trigger]
        le(a, b) && #[trigger] le(b, c) implies le(a, c) by {
        if a != b && b != c {
            order::lemma_lt_transitive(a, b, c);
        }
    }
    assert forall|a: Seq<char>, b: Seq<char>| #[trigger] le(a, b) || #[trigger] le(b, a) by {
        order::lemma_lt_total(a, b);
    }
}

/// There is only one way to sort a list: two sorted lists with the same strings, each as
/// often in the one as in the other, are the same list.
pub proof fn lemma_sorted_unique(s: Seq<Seq<char>>, t: Seq<Seq<char>>)
    requires
        sorted(s),
        sorted(t),
        s.to_multiset() == t.to_multiset(),
    ensures
        s == t,
{
    let le = |a: Seq<char>, b: Seq<char>| order::str_le(a, b);
    lemma_total_order();
    assert forall|i: int, j: int| 0 <= i < j < s.len() implies #[trigger] le(s[i], s[j]) by {
        assert(order::str_le(s[i], s[j]));
    }
    assert forall|i: int, j: int| 0 <= i < j < t.len() implies #[trigger] le(t[i], t[j]) by {
        assert(order::str_le(t[i], t[j]));
    }
    vstd::seq_lib::lemma_sorted_unique(s, t, le);
}

/// Copies a list into sorted order. Strings that occur more than once stay as often.
pub fn sorted_copy(values: &Vec<String>) -> (r: Vec<String>)
    ensures
        sorted(strings(r@)),
        strings(r@).to_multiset() == strings(values@).to_multiset(),
{
    let ghost s = strings(values@);
    let mut r: Vec<String> = Vec::new();
    assert(strings(r@) =~= s.take(0));
    for i in 0..values.len()
        invariant
            s == strings(values@),
            sorted(strings(r@)),
            strings(r@).to_multiset() == s.take(i as int).to_multiset(),
    {
        let ghost before = strings(r@);
        let value = values[i].clone();
        assert(value@ == s[i as int]);
        match search(&r, value.as_str()) {
            Ok(k) => {
                proof {
                    lemma_insert_equal_sorted(before, value@, k as int);
                    vstd::seq_lib::to_multiset_insert(before, k as int, value@);
                }
                let ghost v = value@;
                r.insert(k, value);
                assert(strings(r@) =~= before.insert(k as int, v));
            },
            Err(k) => {
                proof {
                    lemma_with_value_sorted(before, value@);
                    vstd::seq_lib::to_multiset_insert(before, k as int, value@);
                }
                let ghost v = value@;
                r.insert(k, value);
                assert(strings(r@) =~= before.insert(k as int, v));
            },
        }
        proof {
            vstd::seq_lib::to_multiset_build(s.take(i as int), s[i as int]);
            assert(s.take(i + 1) =~= s.take(i as int).push(s[i as int]));
        }
    }
    assert(s.take(values@.len() as int) =~= s);
    r
}

} // verus!
