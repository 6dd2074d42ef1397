//! What holds of strings, lists of them and maps: the ground that entries stand on.

use vstd::prelude::*;

use crate::attrs;
use crate::attrs::{Attrs, Ava};
use crate::map::StringMap;
use crate::order;
use crate::order::Relation;
use crate::values;

verus! {

/// A string is before another just when, behind a common beginning of their UTF-8 bytes, it
/// ends and the other goes on, or its next byte is the smaller one.
pub proof fn law_strings_are_ordered_by_bytes(
    a: Seq<char>,
    b: Seq<char>,
    x: Seq<u8>,
    y: Seq<u8>,
)
    requires
        x == vstd::utf8::encode_utf8(a),
        y == vstd::utf8::encode_utf8(b),
    ensures
        order::str_lt(a, b) <==> exists|n: int|
            {
                &&& 0 <= n <= x.len()
                &&& n < y.len()
                &&& #[trigger] x.take(n) == y.take(n)
                &&& n == x.len() || x[n] < y[n]
            },
{
    reveal(order::str_lt);
    if order::str_lt(a, b) {
        let n = choose|n: int| #[trigger]
            order::agree(x, y, n) && n < y.len() && (n == x.len() || x[n] < y[n]);
        assert(x.take(n) =~= y.take(n));
    }
    if exists|n: int|
        0 <= n <= x.len() && n < y.len() && #[trigger] x.take(n) == y.take(n) && (n == x.len()
            || x[n] < y[n]) {
        let n = choose|n: int|
            0 <= n <= x.len() && n < y.len() && #[trigger] x.take(n) == y.take(n) && (n == x.len()
                || x[n] < y[n]);
        assert forall|i: int| 0 <= i < n implies x[i] == y[i] by {
            assert(x.take(n)[i] == y.take(n)[i]);
        }
        assert(order::agree(x, y, n));
    }
}

/// Of two strings just one thing holds: they are the same, or the one is before the other, or
/// the other before the one. What is before a string is before all that come behind it.
pub proof fn law_order_is_total(a: Seq<char>, b: Seq<char>, c: Seq<char>)
    ensures
        a == b <==> !order::str_lt(a, b) && !order::str_lt(b, a),
        !(order::str_lt(a, b) && order::str_lt(b, a)),
        order::str_lt(a, b) && order::str_lt(b, c) ==> order::str_lt(a, c),
{
    order::lemma_lt_irreflexive(a);
    order::lemma_lt_total(a, b);
    if order::str_lt(a, b) {
        order::lemma_lt_asymmetric(a, b);
        if order::str_lt(b, c) {
            order::lemma_lt_transitive(a, b, c);
        }
    }
}

/// The strings of a list are those that it holds, one by one.
pub proof fn law_strings(v: Seq<String>)
    ensures
        values::strings(v).len() == v.len(),
        forall|i: int| 0 <= i < v.len() ==> #[trigger] values::strings(v)[i] == v[i]@,
{
}

/// The attributes of a map are its names, each with the strings of its item, one by one.
pub proof fn law_attributes_of_a_map(m: StringMap<Vec<String>>)
    ensures
        attrs::attrs_of(m).dom() == m@.dom(),
        forall|k: Seq<char>| #[trigger]
            m@.contains_key(k) ==> attrs::attrs_of(m)[k].len() == m@[k]@.len(),
        forall|k: Seq<char>, i: int|
            m@.contains_key(k) && 0 <= i < m@[k]@.len() ==> #[trigger] attrs::attrs_of(m)[k][i]
                == m@[k]@[i]@,
{
    assert(attrs::attrs_of(m).dom() =~= m@.dom());
}

/// A map is walked through as many names as it has, and none of them is left out.
pub proof fn law_walk_leaves_nothing_out<V>(m: StringMap<V>, n: usize, k: Seq<char>)
    requires
        call_ensures(StringMap::<V>::len, (&m,), n),
    ensures
        m@.dom().finite(),
        n == m@.dom().len(),
        m@.contains_key(k) ==> exists|i: int| 0 <= i < n && #[trigger] m.names()[i] == k,
{
}

/// A map is walked from the smallest name to the largest, each with its item.
pub proof fn law_walk_through_a_map<V>(
    m: StringMap<V>,
    n: usize,
    i: usize,
    j: usize,
    a: &String,
    b: &String,
    item: &V,
)
    requires
        call_ensures(StringMap::<V>::len, (&m,), n),
        i < j < n,
        call_ensures(StringMap::<V>::name_at, (&m, i), a),
        call_ensures(StringMap::<V>::name_at, (&m, j), b),
        call_ensures(StringMap::<V>::item_at, (&m, i), item),
    ensures
        m@.contains_key(a@),
        m@[a@] == *item,
        order::str_lt(a@, b@),
{
}

/// The strings of a list are compared as they are, to the last.
pub proof fn law_lists_are_compared(a: &Vec<String>, b: &Vec<String>, r: bool)
    requires
        call_ensures(values::same_list, (a, b), r),
    ensures
        r <==> a@.len() == b@.len() && forall|i: int|
            0 <= i < a@.len() ==> (#[trigger] a@[i])@ == b@[i]@,
{
    let (s, t) = (values::strings(a@), values::strings(b@));
    if a@.len() == b@.len() && forall|i: int| 0 <= i < a@.len() ==> (#[trigger] a@[i])@ == b@[i]@ {
        assert forall|i: int| 0 <= i < s.len() implies s[i] == t[i] by {
            assert(s[i] == a@[i]@);
        }
        assert(s =~= t);
    }
    if s == t {
        assert(a@.len() == s.len() && b@.len() == t.len());
        assert forall|i: int| 0 <= i < a@.len() implies (#[trigger] a@[i])@ == b@[i]@ by {
            assert(s[i] == a@[i]@ && t[i] == b@[i]@);
        }
    }
}

/// A value is in a list just when it stands somewhere in it.
pub proof fn law_list_contains(list: &Vec<String>, value: &str, r: bool)
    requires
        call_ensures(values::contains, (list, value), r),
    ensures
        r <==> exists|i: int| 0 <= i < list@.len() && (#[trigger] list@[i])@ == value@,
{
    let s = values::strings(list@);
    if r {
        let i = s.index_of(value@);
        assert(list@[i]@ == value@);
    }
    if exists|i: int| 0 <= i < list@.len() && (#[trigger] list@[i])@ == value@ {
        let i = choose|i: int| 0 <= i < list@.len() && (#[trigger] list@[i])@ == value@;
        assert(s[i] == value@);
    }
}

/// A search finds only what was looked for. In a sorted list it finds it if it is there, and
/// otherwise ends between what is before it and what is behind it.
pub proof fn law_search(list: &Vec<String>, value: &str, r: Result<usize, usize>)
    requires
        call_ensures(values::search, (list, value), r),
    ensures
        match r {
            Ok(at) => at < list@.len() && list@[at as int]@ == value@,
            Err(at) => {
                &&& at <= list@.len()
                &&& (forall|i: int, j: int|
                    0 <= i <= j < list@.len() ==> !order::str_lt(
                        (#[trigger] list@[j])@,
                        (#[trigger] list@[i])@,
                    )) ==> {
                    &&& forall|i: int|
                        0 <= i < at ==> order::str_lt((#[trigger] list@[i])@, value@)
                    &&& forall|i: int|
                        at <= i < list@.len() ==> order::str_lt(value@, (#[trigger] list@[i])@)
                }
            },
        },
{
    let s = values::strings(list@);
    if let Err(at) = r {
        if forall|i: int, j: int|
            0 <= i <= j < list@.len() ==> !order::str_lt(
                (#[trigger] list@[j])@,
                (#[trigger] list@[i])@,
            ) {
            assert forall|i: int, j: int| 0 <= i <= j < s.len() implies !order::str_lt(
                #[trigger] s[j],
                #[trigger] s[i],
            ) by {
                assert(s[i] == list@[i]@ && s[j] == list@[j]@);
            }
            lemma_sorted_if(s);
            values::lemma_place_cuts(s, value@);
            assert forall|i: int| 0 <= i < at implies order::str_lt(
                (#[trigger] list@[i])@,
                value@,
            ) by {
                assert(s[i] == list@[i]@);
            }
            assert forall|i: int| at <= i < list@.len() implies order::str_lt(
                value@,
                (#[trigger] list@[i])@,
            ) by {
                assert(s[i] == list@[i]@);
                assert(s.contains(s[i]));
                order::lemma_lt_total(s[i], value@);
            }
        }
    }
}

/// A search looks at the middle of a list first. If the value is not there, the search goes on
/// to the right of the middle if the string there is before the value, and to the left of it
/// otherwise, as if there were nothing else.
pub proof fn law_search_goes_by_halves(
    list: &Vec<String>,
    part: &Vec<String>,
    mid: int,
    value: &str,
    r: Result<usize, usize>,
    part_r: Result<usize, usize>,
)
    requires
        call_ensures(values::search, (list, value), r),
        call_ensures(values::search, (part, value), part_r),
        list@.len() > 0,
        mid == list@.len() as int / 2,
        list@[mid]@ != value@,
        part@ == (if order::str_lt(list@[mid]@, value@) {
            list@.skip(mid + 1)
        } else {
            list@.take(mid)
        }),
    ensures
        r is Ok <==> part_r is Ok,
        ({
            let found = match r {
                Ok(i) => i,
                Err(i) => i,
            };
            let part_found = match part_r {
                Ok(i) => i,
                Err(i) => i,
            };
            found == part_found + (if order::str_lt(list@[mid]@, value@) {
                mid + 1
            } else {
                0
            })
        }),
{
    let (s, t) = (values::strings(list@), values::strings(part@));
    assert(s[mid] == list@[mid]@);
    if order::str_lt(s[mid], value@) {
        assert(t =~= s.skip(mid + 1));
        lemma_search_right(s, value@, mid + 1, mid + 1, s.len() as int);
    } else {
        assert(t =~= s.take(mid));
        lemma_search_left(s, value@, mid, 0, mid);
    }
}

/// A search to the right of a place does not see what is to the left of it.
proof fn lemma_search_right(s: Seq<Seq<char>>, value: Seq<char>, n: int, low: int, high: int)
    requires
        0 <= n <= low,
        high <= s.len(),
        n <= s.len(),
    ensures
        values::searched_in(s, value, low, high) == (match values::searched_in(
            s.skip(n),
            value,
            low - n,
            high - n,
        ) {
            Ok(i) => Ok::<int, int>(i + n),
            Err(i) => Err::<int, int>(i + n),
        }),
    decreases high - low,
{
    if low < high {
        let mid = low + (high - low) / 2;
        assert(s.skip(n)[mid - n] == s[mid]);
        lemma_search_right(s, value, n, mid + 1, high);
        lemma_search_right(s, value, n, low, mid);
    }
}

/// A search to the left of a place does not see what is to the right of it.
proof fn lemma_search_left(s: Seq<Seq<char>>, value: Seq<char>, n: int, low: int, high: int)
    requires
        0 <= low,
        high <= n <= s.len(),
    ensures
        values::searched_in(s, value, low, high) == values::searched_in(
            s.take(n),
            value,
            low,
            high,
        ),
    decreases high - low,
{
    if low < high {
        let mid = low + (high - low) / 2;
        assert(s.take(n)[mid] == s[mid]);
        lemma_search_left(s, value, n, mid + 1, high);
        lemma_search_left(s, value, n, low, mid);
    }
}

/// What stands in the middle of a list is found there.
pub proof fn law_search_finds_the_middle(
    list: &Vec<String>,
    mid: int,
    value: &str,
    r: Result<usize, usize>,
)
    requires
        call_ensures(values::search, (list, value), r),
        list@.len() > 0,
        mid == list@.len() as int / 2,
        list@[mid]@ == value@,
    ensures
        r matches Ok(i) && i == mid,
{
    let s = values::strings(list@);
    assert(s[mid] == list@[mid]@);
}

/// A list in which nothing stands behind what should come behind it is sorted.
pub(crate) proof fn lemma_sorted_if(s: Seq<Seq<char>>)
    requires
        forall|i: int, j: int|
            0 <= i <= j < s.len() ==> !order::str_lt(#[trigger] s[j], #[trigger] s[i]),
    ensures
        values::sorted(s),
{
    assert forall|i: int, j: int| 0 <= i <= j < s.len() implies #[trigger] order::str_le(
        s[i],
        s[j],
    ) by {
        order::lemma_lt_total(s[i], s[j]);
    }
}

/// In a sorted list nothing stands behind what should come behind it.
pub(crate) proof fn lemma_sorted_then(s: Seq<Seq<char>>)
    requires
        values::sorted(s),
    ensures
        forall|i: int, j: int|
            0 <= i <= j < s.len() ==> !order::str_lt(#[trigger] s[j], #[trigger] s[i]),
{
    assert forall|i: int, j: int| 0 <= i <= j < s.len() implies !order::str_lt(
        #[trigger] s[j],
        #[trigger] s[i],
    ) by {
        assert(order::str_le(s[i], s[j]));
        if order::str_lt(s[j], s[i]) {
            order::lemma_lt_asymmetric(s[j], s[i]);
        }
    }
}

/// Sorting a list keeps every string as often as it was there, and puts none behind what
/// should come behind it.
pub proof fn law_sorted_copy(list: &Vec<String>, r: Vec<String>)
    requires
        call_ensures(values::sorted_copy, (list,), r),
    ensures
        r@.len() == list@.len(),
        r@.map_values(|s: String| s@).to_multiset() == list@.map_values(
            |s: String| s@,
        ).to_multiset(),
        forall|i: int, j: int|
            0 <= i <= j < r@.len() ==> !order::str_lt(
                (#[trigger] r@[j])@,
                (#[trigger] r@[i])@,
            ),
{
    let (s, t) = (values::strings(list@), values::strings(r@));
    s.to_multiset_ensures();
    t.to_multiset_ensures();
    assert(r@.map_values(|s: String| s@) =~= t);
    assert(list@.map_values(|s: String| s@) =~= s);
    lemma_sorted_then(t);
    assert forall|i: int, j: int| 0 <= i <= j < r@.len() implies !order::str_lt(
        (#[trigger] r@[j])@,
        (#[trigger] r@[i])@,
    ) by {
        assert(t[i] == r@[i]@ && t[j] == r@[j]@);
    }
}

/// The sorted form of attributes has the same names. Each has the same values, every one as
/// often, and none behind what should come behind it, in whatever order they were.
pub proof fn law_sorted_form_keeps_values(m: Attrs, n: Attrs)
    requires
        attrs::sorted_form(m, n),
    ensures
        n.dom() == m.dom(),
        forall|k: Seq<char>| #[trigger]
            m.contains_key(k) ==> n[k].to_multiset() == m[k].to_multiset(),
        forall|k: Seq<char>| #[trigger]
            m.contains_key(k) ==> n[k].len() == m[k].len(),
        forall|k: Seq<char>, i: int, j: int|
            m.contains_key(k) && 0 <= i <= j < n[k].len() ==> !order::str_lt(
                #[trigger] n[k][j],
                #[trigger] n[k][i],
            ),
{
    assert forall|k: Seq<char>| #[trigger] m.contains_key(k) implies n[k].len() == m[k].len() by {
        n[k].to_multiset_ensures();
        m[k].to_multiset_ensures();
    }
    assert forall|k: Seq<char>, i: int, j: int|
        m.contains_key(k) && 0 <= i <= j < n[k].len() implies !order::str_lt(
        #[trigger] n[k][j],
        #[trigger] n[k][i],
    ) by {
        lemma_sorted_then(n[k]);
    }
}

/// A list of the attributes of a map goes from the smallest name to the largest, with the
/// values of each, and leaves no attribute out.
pub proof fn law_listed_attributes(s: Seq<Ava>, m: Attrs)
    requires
        attrs::lists(s, m),
    ensures
        forall|i: int, j: int|
            0 <= i < j < s.len() ==> order::str_lt((#[trigger] s[i]).0, (#[trigger] s[j]).0),
        forall|i: int|
            0 <= i < s.len() ==> m.contains_key((#[trigger] s[i]).0) && m[s[i].0] == s[i].1,
        forall|k: Seq<char>| #[trigger]
            m.contains_key(k) ==> exists|i: int| 0 <= i < s.len() && (#[trigger] s[i]).0 == k,
{
    let names = attrs::names_of(s);
    assert forall|i: int, j: int| 0 <= i < j < s.len() implies order::str_lt(
        (#[trigger] s[i]).0,
        (#[trigger] s[j]).0,
    ) by {
        assert(names[i] == s[i].0 && names[j] == s[j].0);
        assert(order::str_lt(names[i], names[j]));
    }
    assert forall|k: Seq<char>| #[trigger] m.contains_key(k) implies exists|i: int|
        0 <= i < s.len() && (#[trigger] s[i]).0 == k by {
        let i = names.index_of(k);
        assert(names.contains(k));
        assert(names[i] == s[i].0);
    }
}

/// How one string stands to another is told by which of the two is before the other.
pub proof fn law_relation_of_strings(a: &str, b: &str, r: Relation, back: Relation)
    requires
        call_ensures(order::relate, (a, b), r),
        call_ensures(order::relate, (b, a), back),
    ensures
        r is Same <==> a@ == b@,
        r is Before <==> order::str_lt(a@, b@),
        r is After <==> back is Before,
{
}

} // verus!
