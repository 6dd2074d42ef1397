//! What the attributes of an entry are: a map from names to lists of values.

use vstd::prelude::*;

use crate::map::StringMap;
use crate::order;
use crate::values;

verus! {

/// Attribute names and their values.
pub type Attrs = Map<Seq<char>, Seq<Seq<char>>>;

/// An attribute name with its values.
pub type Ava = (Seq<char>, Seq<Seq<char>>);

/// The attributes that a map holds.
pub open spec fn attrs_of(m: StringMap<Vec<String>>) -> Attrs {
    m@.map_values(|v: Vec<String>| values::strings(v@))
}

/// The attributes that a map holds, by position.
pub open spec fn avas_of(m: StringMap<Vec<String>>) -> Seq<Ava> {
    Seq::new(m.names().len(), |i: int| (m.names()[i], values::strings(m.listed()[i]@)))
}

/// The names of a list of attributes.
pub open spec fn names_of(s: Seq<Ava>) -> Seq<Seq<char>> {
    s.map_values(|x: Ava| x.0)
}

/// `s` holds every attribute of `m` once, in ascending order of the names.
pub open spec fn lists(s: Seq<Ava>, m: Attrs) -> bool {
    &&& values::ascending(names_of(s))
    &&& forall|i: int|
        0 <= i < s.len() ==> m.contains_key((#[trigger] s[i]).0) && m[s[i].0] == s[i].1
    &&& forall|k: Seq<char>| #[trigger] m.contains_key(k) ==> names_of(s).contains(k)
}

/// The attributes of `m` in ascending order of their names. (Every map that an entry can
/// hold has exactly one such list.)
pub open spec fn listing(m: Attrs) -> Seq<Ava> {
    choose|s: Seq<Ava>| lists(s, m)
}

/// The values of each attribute are in sorted order.
pub open spec fn all_sorted(m: Attrs) -> bool {
    forall|k: Seq<char>| #[trigger] m.contains_key(k) ==> values::sorted(m[k])
}

/// The values of each attribute are in ascending order, so that none occurs twice.
pub open spec fn all_ascending(m: Attrs) -> bool {
    forall|k: Seq<char>| #[trigger] m.contains_key(k) ==> values::ascending(m[k])
}

/// Two lists of the attributes of one map are the same list.
pub proof fn lemma_lists_unique(s: Seq<Ava>, t: Seq<Ava>, m: Attrs)
    requires
        lists(s, m),
        lists(t, m),
    ensures
        s == t,
    decreases s.len(),
{
    let (ns, nt) = (names_of(s), names_of(t));
    if s.len() == 0 || t.len() == 0 {
        if t.len() > 0 {
            assert(m.contains_key(t[0].0));
            assert(ns.contains(t[0].0));
        }
        if s.len() > 0 {
            assert(m.contains_key(s[0].0));
            assert(nt.contains(s[0].0));
        }
        assert(s =~= t);
    } else {
        let (a, b) = (s.last(), t.last());
        assert(s[s.len() - 1] == a && t[t.len() - 1] == b);
        assert(ns[s.len() - 1] == a.0 && nt[t.len() - 1] == b.0);
        if a.0 != b.0 {
            assert(m.contains_key(a.0) && m.contains_key(b.0));
            assert(nt.contains(a.0) && ns.contains(b.0));
            let i = nt.index_of(a.0);
            let j = ns.index_of(b.0);
            assert(nt[i] == a.0 && ns[j] == b.0);
            assert(order::str_lt(nt[i], nt[t.len() - 1]));
            assert(order::str_lt(ns[j], ns[s.len() - 1]));
            order::lemma_lt_asymmetric(a.0, b.0);
        }
        lemma_lists_drop_last(s, m);
        lemma_lists_drop_last(t, m);
        lemma_lists_unique(s.drop_last(), t.drop_last(), m.remove(a.0));
        assert(s =~= s.drop_last().push(a));
        assert(t =~= t.drop_last().push(b));
    }
}

/// Without its last attribute, a list lists the map without that attribute.
pub proof fn lemma_lists_drop_last(s: Seq<Ava>, m: Attrs)
    requires
        lists(s, m),
        s.len() > 0,
    ensures
        lists(s.drop_last(), m.remove(s.last().0)),
{
    let t = s.drop_last();
    let n = m.remove(s.last().0);
    let (ns, nt) = (names_of(s), names_of(t));
    assert(ns[s.len() - 1] == s.last().0);
    assert forall|i: int, j: int| 0 <= i < j < nt.len() implies #[trigger] order::str_lt(
        nt[i],
        nt[j],
    ) by {
        assert(order::str_lt(ns[i], ns[j]));
    }
    assert forall|i: int| 0 <= i < t.len() implies n.contains_key((#[trigger] t[i]).0) && n[t[i].0]
        == t[i].1 by {
        assert(s[i] == t[i]);
        assert(order::str_lt(ns[i], ns[s.len() - 1]));
        order::lemma_lt_asymmetric(ns[i], ns[s.len() - 1]);
    }
    assert forall|k: Seq<char>| #[trigger] n.contains_key(k) implies nt.contains(k) by {
        assert(m.contains_key(k));
        assert(ns.contains(k));
        let i = ns.index_of(k);
        assert(ns[i] == k);
        assert(nt[i] == k);
    }
}

/// A list of the attributes of a map is the listing of the map.
pub proof fn lemma_listing(s: Seq<Ava>, m: Attrs)
    requires
        lists(s, m),
    ensures
        listing(m) == s,
{
    lemma_lists_unique(s, listing(m), m);
}

/// A map is listed by position.
pub proof fn lemma_avas_of(m: StringMap<Vec<String>>)
    requires
        m.wf(),
    ensures
        lists(avas_of(m), attrs_of(m)),
        listing(attrs_of(m)) == avas_of(m),
{
    m.lemma_listed();
    let s = avas_of(m);
    assert(names_of(s) =~= m.names());
    assert forall|i: int| 0 <= i < s.len() implies attrs_of(m).contains_key((#[trigger] s[i]).0)
        && attrs_of(m)[s[i].0] == s[i].1 by {
        assert(m@.contains_key(m.names()[i]));
    }
    lemma_listing(s, attrs_of(m));
}

/// The attributes of a map in which the item of a name was set.
pub proof fn lemma_attrs_insert(
    m: StringMap<Vec<String>>,
    n: StringMap<Vec<String>>,
    key: Seq<char>,
    item: Vec<String>,
)
    requires
        n@ == m@.insert(key, item),
    ensures
        attrs_of(n) == attrs_of(m).insert(key, values::strings(item@)),
{
    assert(attrs_of(n) =~= attrs_of(m).insert(key, values::strings(item@)));
}

/// The item of a name.
pub fn get_values<'a>(m: &'a StringMap<Vec<String>>, key: &str) -> (r: Option<&'a Vec<String>>)
    ensures
        match r {
            Some(v) => attrs_of(*m).contains_key(key@) && values::strings(v@) == attrs_of(*m)[key@],
            None => !attrs_of(*m).contains_key(key@),
        },
{
    m.get(key)
}

/// The map `r` has the first `i` attributes of `m`, and the values of each are related to those
/// that it has in `m`, as `rel` says.
spec fn made_of_first(
    m: StringMap<Vec<String>>,
    r: StringMap<Vec<String>>,
    i: int,
    rel: spec_fn(Seq<Seq<char>>, Seq<Seq<char>>) -> bool,
) -> bool {
    &&& forall|k: Seq<char>| #[trigger]
        attrs_of(r).contains_key(k) <==> m.names().take(i).contains(k)
    &&& forall|k: Seq<char>| #[trigger]
        attrs_of(r).contains_key(k) ==> rel(attrs_of(m)[k], attrs_of(r)[k])
}

/// One more attribute was made.
proof fn lemma_made_step(
    m: StringMap<Vec<String>>,
    before: StringMap<Vec<String>>,
    r: StringMap<Vec<String>>,
    i: int,
    list: Vec<String>,
    rel: spec_fn(Seq<Seq<char>>, Seq<Seq<char>>) -> bool,
)
    requires
        m.wf(),
        0 <= i < m.names().len(),
        made_of_first(m, before, i, rel),
        r@ == before@.insert(m.names()[i], list),
        rel(values::strings(m.listed()[i]@), values::strings(list@)),
    ensures
        made_of_first(m, r, i + 1, rel),
{
    m.lemma_listed();
    lemma_attrs_insert(before, r, m.names()[i], list);
    lemma_take_step(m.names(), i);
    assert(m@.contains_key(m.names()[i]));
}

/// All attributes were made.
proof fn lemma_made_all(
    m: StringMap<Vec<String>>,
    r: StringMap<Vec<String>>,
    rel: spec_fn(Seq<Seq<char>>, Seq<Seq<char>>) -> bool,
)
    requires
        m.wf(),
        made_of_first(m, r, m.names().len() as int, rel),
    ensures
        attrs_of(r).dom() == attrs_of(m).dom(),
        forall|k: Seq<char>| #[trigger]
            attrs_of(m).contains_key(k) ==> rel(attrs_of(m)[k], attrs_of(r)[k]),
{
    m.lemma_listed();
    assert(m.names().take(m.names().len() as int) =~= m.names());
    assert forall|k: Seq<char>| #[trigger] attrs_of(m).contains_key(k) <==> attrs_of(
        r,
    ).contains_key(k) by {
        assert(m@.contains_key(k) <==> m.names().contains(k));
    }
    assert(attrs_of(r).dom() =~= attrs_of(m).dom());
}

/// Copies a map.
pub fn copy_attrs(m: &StringMap<Vec<String>>) -> (r: StringMap<Vec<String>>)
    ensures
        attrs_of(r) == attrs_of(*m),
{
    proof {
        use_type_invariant(m);
    }
    let ghost rel = |s: Seq<Seq<char>>, t: Seq<Seq<char>>| t == s;
    let mut r: StringMap<Vec<String>> = StringMap::new();
    let n: usize = m.len();
    for i in 0..n
        invariant
            m.wf(),
            n == m.names().len(),
            rel == (|s: Seq<Seq<char>>, t: Seq<Seq<char>>| t == s),
            made_of_first(*m, r, i as int, rel),
    {
        let ghost before = r;
        let list = values::copy_list(m.item_at(i));
        r.insert(m.name_at(i).clone(), list);
        proof {
            lemma_made_step(*m, before, r, i as int, list, rel);
        }
    }
    proof {
        lemma_made_all(*m, r, rel);
        assert(attrs_of(r) =~= attrs_of(*m));
    }
    r
}

/// What the first `i + 1` strings of a list are.
proof fn lemma_take_step(s: Seq<Seq<char>>, i: int)
    requires
        0 <= i < s.len(),
    ensures
        forall|k: Seq<char>| #[trigger]
            s.take(i + 1).contains(k) <==> s.take(i).contains(k) || k == s[i],
{
    assert forall|k: Seq<char>| #[trigger] s.take(i + 1).contains(k) <==> s.take(i).contains(k) || k
        == s[i] by {
        if s.take(i).contains(k) {
            let j = s.take(i).index_of(k);
            assert(s.take(i + 1)[j] == k);
        }
        if s.take(i + 1).contains(k) {
            let j = s.take(i + 1).index_of(k);
            if j < i {
                assert(s.take(i)[j] == k);
            }
        }
        assert(s.take(i + 1)[i] == s[i]);
    }
}

/// Tells whether two maps hold the same attributes with the same values.
pub fn same_attrs(a: &StringMap<Vec<String>>, b: &StringMap<Vec<String>>) -> (r: bool)
    ensures
        r == (attrs_of(*a) == attrs_of(*b)),
{
    proof {
        use_type_invariant(a);
        use_type_invariant(b);
        lemma_avas_of(*a);
        lemma_avas_of(*b);
    }
    let ghost s = avas_of(*a);
    let ghost t = avas_of(*b);
    if a.len() != b.len() {
        assert(s.len() != t.len());
        return false;
    }
    let n: usize = a.len();
    for i in 0..n
        invariant
            n == s.len(),
            s == avas_of(*a),
            t == avas_of(*b),
            listing(attrs_of(*a)) == s,
            listing(attrs_of(*b)) == t,
            s.len() == t.len(),
            forall|j: int| 0 <= j < i ==> #[trigger] s[j] == t[j],
    {
        assert(s[i as int].0 == a.names()[i as int] && t[i as int].0 == b.names()[i as int]);
        if !order::same(a.name_at(i).as_str(), b.name_at(i).as_str()) || !values::same_list(
            a.item_at(i),
            b.item_at(i),
        ) {
            assert(s[i as int] != t[i as int]);
            return false;
        }
    }
    proof {
        assert(s =~= t);
        lemma_lists_determine(s, attrs_of(*a), attrs_of(*b));
    }
    true
}

/// A list of attributes is that of one map only.
pub proof fn lemma_lists_determine(s: Seq<Ava>, m: Attrs, n: Attrs)
    requires
        lists(s, m),
        lists(s, n),
    ensures
        m == n,
{
    assert forall|k: Seq<char>| m.contains_key(k) implies #[trigger] n.contains_key(k) && m[k]
        == n[k] by {
        let i = names_of(s).index_of(k);
        assert(names_of(s).contains(k));
        assert(names_of(s)[i] == s[i].0);
    }
    assert forall|k: Seq<char>| n.contains_key(k) implies #[trigger] m.contains_key(k) by {
        let i = names_of(s).index_of(k);
        assert(names_of(s).contains(k));
        assert(names_of(s)[i] == s[i].0);
    }
    assert(m =~= n);
}

/// `t` holds the values of `s` in sorted order.
pub open spec fn sorted_values(s: Seq<Seq<char>>, t: Seq<Seq<char>>) -> bool {
    values::sorted(t) && t.to_multiset() == s.to_multiset()
}

/// `n` has the attributes of `m`, with the values of each put into sorted order.
pub open spec fn sorted_form(m: Attrs, n: Attrs) -> bool {
    &&& n.dom() == m.dom()
    &&& forall|k: Seq<char>| #[trigger] m.contains_key(k) ==> sorted_values(m[k], n[k])
}

/// Copies a map, with the values of each attribute put into sorted order.
pub fn sorted_attrs(m: &StringMap<Vec<String>>) -> (r: StringMap<Vec<String>>)
    ensures
        sorted_form(attrs_of(*m), attrs_of(r)),
{
    proof {
        use_type_invariant(m);
    }
    let ghost rel = |s: Seq<Seq<char>>, t: Seq<Seq<char>>| sorted_values(s, t);
    let mut r: StringMap<Vec<String>> = StringMap::new();
    let n: usize = m.len();
    for i in 0..n
        invariant
            m.wf(),
            n == m.names().len(),
            rel == (|s: Seq<Seq<char>>, t: Seq<Seq<char>>| sorted_values(s, t)),
            made_of_first(*m, r, i as int, rel),
    {
        let ghost before = r;
        let list = values::sorted_copy(m.item_at(i));
        r.insert(m.name_at(i).clone(), list);
        proof {
            lemma_made_step(*m, before, r, i as int, list, rel);
        }
    }
    proof {
        lemma_made_all(*m, r, rel);
    }
    r
}

} // verus!
