//! What holds of entries and the schema: what a normal form is made of, what a valid entry
//! promises, and what an error says.

use vstd::prelude::*;

use crate::attrs;
use crate::attrs::{Attrs, Ava};
use crate::entry::validation;
use crate::entry::{Entry, EntryInvalid, EntryValid};
use crate::laws;
use crate::laws::data;
use crate::order;
use crate::schema;
use crate::schema::{SchemaAttribute, SchemaClass, SchemaError, SchemaReadTransaction, Syntax};
use crate::values;

verus! {

/// What is taken for the answer of a syntax is an answer that it gave when it was asked for
/// just that value or those values, and every such answer may be taken.
pub proof fn law_answers_of_a_syntax<S: Syntax>(
    syntax: S,
    value: Seq<char>,
    normal: Seq<char>,
    list: Seq<Seq<char>>,
    verdict: Result<(), SchemaError>,
)
    ensures
        schema::may_normalise(syntax, value, normal) <==> exists|v: String, n: String|
            v@ == value && n@ == normal && #[trigger] call_ensures(
                S::normalise_value,
                (&syntax, &v),
                n,
            ),
        schema::may_judge(syntax, list, verdict) <==> exists|v: Vec<String>|
            v@.map_values(|s: String| s@) == list && #[trigger] call_ensures(
                S::validate_ava,
                (&syntax, &v),
                verdict,
            ),
{
    assert forall|v: Vec<String>| #[trigger] values::strings(v@) == v@.map_values(
        |s: String| s@,
    ) by {
        assert(values::strings(v@) =~= v@.map_values(|s: String| s@));
    }
    if exists|v: Vec<String>|
        v@.map_values(|s: String| s@) == list && #[trigger] call_ensures(
            S::validate_ava,
            (&syntax, &v),
            verdict,
        ) {
        let v = choose|v: Vec<String>|
            v@.map_values(|s: String| s@) == list && #[trigger] call_ensures(
                S::validate_ava,
                (&syntax, &v),
                verdict,
            );
        assert(values::strings(v@) == list);
    }
}

/// An attribute is required just when it stands, somewhere, in one of the two lists of what an
/// entry must have of one of the classes.
pub proof fn law_required_attributes(
    classes: Map<Seq<char>, SchemaClass>,
    names: Seq<Seq<char>>,
    attr: Seq<char>,
)
    ensures
        schema::required(classes, names, attr) <==> exists|i: int|
            {
                &&& 0 <= i < names.len()
                &&& classes.contains_key(#[trigger] names[i])
                &&& {
                    ||| exists|j: int|
                        0 <= j < classes[names[i]].systemmust@.len() && (
                        #[trigger] classes[names[i]].systemmust@[j])@ == attr
                    ||| exists|j: int|
                        0 <= j < classes[names[i]].must@.len() && (
                        #[trigger] classes[names[i]].must@[j])@ == attr
                }
            },
{
    assert forall|i: int|
        0 <= i < names.len() && classes.contains_key(#[trigger] names[i]) implies (
    classes[names[i]].requires_attribute(attr) <==> {
        ||| exists|j: int|
            0 <= j < classes[names[i]].systemmust@.len() && (
            #[trigger] classes[names[i]].systemmust@[j])@ == attr
        ||| exists|j: int|
            0 <= j < classes[names[i]].must@.len() && (#[trigger] classes[names[i]].must@[j])@
                == attr
    }) by {
        lemma_stands_in(classes[names[i]].systemmust@, attr);
        lemma_stands_in(classes[names[i]].must@, attr);
    }
}

/// An attribute is allowed just when it stands, somewhere, in one of the four lists of what an
/// entry must or may have of one of the classes.
pub proof fn law_allowed_attributes(
    classes: Map<Seq<char>, SchemaClass>,
    names: Seq<Seq<char>>,
    attr: Seq<char>,
)
    ensures
        schema::allowed(classes, names, attr) <==> exists|i: int|
            {
                &&& 0 <= i < names.len()
                &&& classes.contains_key(#[trigger] names[i])
                &&& {
                    ||| exists|j: int|
                        0 <= j < classes[names[i]].systemmust@.len() && (
                        #[trigger] classes[names[i]].systemmust@[j])@ == attr
                    ||| exists|j: int|
                        0 <= j < classes[names[i]].must@.len() && (
                        #[trigger] classes[names[i]].must@[j])@ == attr
                    ||| exists|j: int|
                        0 <= j < classes[names[i]].systemmay@.len() && (
                        #[trigger] classes[names[i]].systemmay@[j])@ == attr
                    ||| exists|j: int|
                        0 <= j < classes[names[i]].may@.len() && (
                        #[trigger] classes[names[i]].may@[j])@ == attr
                }
            },
{
    assert forall|i: int|
        0 <= i < names.len() && classes.contains_key(#[trigger] names[i]) implies (
    classes[names[i]].allows_attribute(attr) <==> {
        ||| exists|j: int|
            0 <= j < classes[names[i]].systemmust@.len() && (
            #[trigger] classes[names[i]].systemmust@[j])@ == attr
        ||| exists|j: int|
            0 <= j < classes[names[i]].must@.len() && (#[trigger] classes[names[i]].must@[j])@
                == attr
        ||| exists|j: int|
            0 <= j < classes[names[i]].systemmay@.len() && (
            #[trigger] classes[names[i]].systemmay@[j])@ == attr
        ||| exists|j: int|
            0 <= j < classes[names[i]].may@.len() && (#[trigger] classes[names[i]].may@[j])@
                == attr
    }) by {
        lemma_stands_in(classes[names[i]].systemmust@, attr);
        lemma_stands_in(classes[names[i]].must@, attr);
        lemma_stands_in(classes[names[i]].systemmay@, attr);
        lemma_stands_in(classes[names[i]].may@, attr);
    }
}

/// A string is among those of a list just when it stands somewhere in it.
proof fn lemma_stands_in(list: Seq<String>, value: Seq<char>)
    ensures
        values::strings(list).contains(value) <==> exists|j: int|
            0 <= j < list.len() && (#[trigger] list[j])@ == value,
{
    let s = values::strings(list);
    if s.contains(value) {
        let j = s.index_of(value);
        assert(list[j]@ == value);
    }
    if exists|j: int| 0 <= j < list.len() && (#[trigger] list[j])@ == value {
        let j = choose|j: int| 0 <= j < list.len() && (#[trigger] list[j])@ == value;
        assert(s[j] == value);
    }
}

/// What the schema tells of classes: they are valid just when all of them are in the schema and
/// no two are the same; an attribute is allowed, and what is required is known, as is said of
/// the strings `s` of the names.
pub proof fn law_questions_to_the_schema<S>(
    schema: SchemaReadTransaction<S>,
    names: &Vec<String>,
    s: Seq<Seq<char>>,
    attr: &str,
    valid: bool,
    allowed: bool,
    known: bool,
)
    requires
        s.len() == names@.len(),
        forall|i: int| 0 <= i < s.len() ==> #[trigger] s[i] == names@[i]@,
        call_ensures(SchemaReadTransaction::<S>::are_classes_valid, (&schema, names), valid),
        call_ensures(SchemaReadTransaction::<S>::is_allowed, (&schema, names, attr), allowed),
        call_ensures(SchemaReadTransaction::<S>::knows_requirements, (&schema, names), known),
    ensures
        valid <==> (forall|i: int|
            0 <= i < s.len() ==> schema.classes@.contains_key(#[trigger] s[i])) && (forall|
            i: int,
            j: int,
        |
            0 <= i < j < s.len() ==> #[trigger] s[i] != #[trigger] s[j]),
        allowed <==> schema::allowed(schema.classes@, s, attr@),
        known <==> forall|k: Seq<char>| #[trigger]
            schema::required(schema.classes@, s, k) ==> schema.attributes@.contains_key(k),
{
    assert(values::strings(names@) =~= s);
}

/// An entry can be checked just when it has classes and, if these are valid, the schema knows
/// every attribute that they require.
pub proof fn law_checkable_entry<S, VALID, STATE>(
    e: Entry<VALID, STATE>,
    schema: SchemaReadTransaction<S>,
    r: bool,
)
    requires
        call_ensures(Entry::<VALID, STATE>::is_checkable, (&e, &schema), r),
    ensures
        r <==> e@.attrs.contains_key("class"@) && ({
            &&& forall|i: int|
                0 <= i < e@.attrs["class"@].len() ==> schema.classes@.contains_key(
                    #[trigger] e@.attrs["class"@][i],
                )
            &&& e@.attrs["class"@].no_duplicates()
        } ==> forall|k: Seq<char>| #[trigger]
            schema::required(schema.classes@, e@.attrs["class"@], k)
                ==> schema.attributes@.contains_key(k)),
{
}

/// An attribute of a list in which none behind it has the same name is among those collected.
proof fn lemma_collected_last(s: Seq<Ava>, i: int)
    requires
        0 <= i < s.len(),
        forall|j: int| i < j < s.len() ==> (#[trigger] s[j]).0 != s[i].0,
    ensures
        validation::collected(s).contains_key(s[i].0),
        validation::collected(s)[s[i].0] == s[i].1,
    decreases s.len(),
{
    if i < s.len() - 1 {
        let t = s.drop_last();
        assert(s[s.len() - 1] == s.last());
        assert(t[i] == s[i]);
        assert forall|j: int| i < j < t.len() implies (#[trigger] t[j]).0 != t[i].0 by {
            assert(t[j] == s[j]);
        }
        lemma_collected_last(t, i);
    }
}

/// The last place of a name in a list.
proof fn last_place(s: Seq<Ava>, k: Seq<char>) -> (i: int)
    requires
        exists|j: int| 0 <= j < s.len() && (#[trigger] s[j]).0 == k,
    ensures
        0 <= i < s.len(),
        s[i].0 == k,
        forall|j: int| i < j < s.len() ==> (#[trigger] s[j]).0 != k,
    decreases s.len(),
{
    assert(s[s.len() - 1] == s.last());
    if s.last().0 == k {
        s.len() - 1
    } else {
        let t = s.drop_last();
        let j = choose|j: int| 0 <= j < s.len() && (#[trigger] s[j]).0 == k;
        assert(t[j].0 == k);
        let i = last_place(t, k);
        assert(s[i] == t[i]);
        assert forall|j: int| i < j < s.len() implies (#[trigger] s[j]).0 != k by {
            if j < t.len() {
                assert(t[j] == s[j]);
            }
        }
        i
    }
}

/// What is collected comes from somewhere in the list.
proof fn lemma_collected_comes_from(s: Seq<Ava>, k: Seq<char>)
    requires
        validation::collected(s).contains_key(k),
    ensures
        exists|j: int| 0 <= j < s.len() && (#[trigger] s[j]).0 == k,
    decreases s.len(),
{
    assert(s[s.len() - 1] == s.last());
    if s.last().0 != k {
        let t = s.drop_last();
        lemma_collected_comes_from(t, k);
        let j = choose|j: int| 0 <= j < t.len() && (#[trigger] t[j]).0 == k;
        assert(s[j].0 == k);
    }
}

/// Every attribute in normal form comes from one that was there: its name is an answer of the
/// syntax of `name` to the name of that one, and each of its values is an answer of its own
/// syntax to the corresponding value of that one, whether it can have one value or several. If
/// the schema does not know it, its values are those of that one. And every attribute that was
/// there has a normal name that is there.
pub proof fn law_normal_form<S: Syntax>(
    attributes: Map<Seq<char>, SchemaAttribute<S>>,
    m: Attrs,
    n: Attrs,
)
    requires
        m.dom().finite(),
        validation::normal_form(attributes, m, n),
    ensures
        forall|k: Seq<char>| #[trigger]
            n.contains_key(k) ==> exists|a: Seq<char>|
                {
                    &&& m.contains_key(a)
                    &&& #[trigger] schema::may_normalise(attributes["name"@].syntax, a, k)
                    &&& n[k].len() == m[a].len()
                    &&& forall|i: int|
                        0 <= i < m[a].len() ==> if attributes.contains_key(k) {
                            schema::may_normalise(
                                attributes[k].syntax,
                                m[a][i],
                                #[trigger] n[k][i],
                            )
                        } else {
                            n[k][i] == m[a][i]
                        }
                },
        forall|a: Seq<char>| #[trigger]
            m.contains_key(a) ==> exists|k: Seq<char>|
                n.contains_key(k) && #[trigger] schema::may_normalise(
                    attributes["name"@].syntax,
                    a,
                    k,
                ),
{
    laws::law_listing(m);
    let raw = attrs::listing(m);
    let s = choose|s: Seq<Ava>| #[trigger]
        validation::normal_avas(attributes, raw, s) && n == validation::collected(s);
    assert forall|k: Seq<char>| #[trigger] n.contains_key(k) implies exists|a: Seq<char>|
        {
            &&& m.contains_key(a)
            &&& #[trigger] schema::may_normalise(attributes["name"@].syntax, a, k)
            &&& n[k].len() == m[a].len()
            &&& forall|i: int|
                0 <= i < m[a].len() ==> if attributes.contains_key(k) {
                    schema::may_normalise(attributes[k].syntax, m[a][i], #[trigger] n[k][i])
                } else {
                    n[k][i] == m[a][i]
                }
        } by {
        lemma_collected_comes_from(s, k);
        let j = last_place(s, k);
        lemma_collected_last(s, j);
        assert(validation::normal_ava(attributes, raw[j], s[j]));
        let a = raw[j].0;
        assert(m.contains_key(a) && m[a] == raw[j].1);
        assert(schema::may_normalise(attributes["name"@].syntax, a, k));
    }
    assert forall|a: Seq<char>| #[trigger] m.contains_key(a) implies exists|k: Seq<char>|
        n.contains_key(k) && #[trigger] schema::may_normalise(
            attributes["name"@].syntax,
            a,
            k,
        ) by {
        data::law_listed_attributes(raw, m);
        let i = choose|i: int| 0 <= i < raw.len() && (#[trigger] raw[i]).0 == a;
        assert(validation::normal_ava(attributes, raw[i], s[i]));
        let k = s[i].0;
        let j = last_place(s, k);
        lemma_collected_last(s, j);
        assert(schema::may_normalise(attributes["name"@].syntax, a, k));
    }
}

/// Of the attributes whose names have one normal form, the one with the largest name counts:
/// where `a` has no normal name but `k`, and no larger name has that normal name, `k` is there,
/// and its values are the normal forms of those of `a`.
pub proof fn law_largest_name_counts<S: Syntax>(
    attributes: Map<Seq<char>, SchemaAttribute<S>>,
    m: Attrs,
    n: Attrs,
    a: Seq<char>,
    k: Seq<char>,
)
    requires
        m.dom().finite(),
        validation::normal_form(attributes, m, n),
        m.contains_key(a),
        forall|r: Seq<char>| #[trigger]
            schema::may_normalise(attributes["name"@].syntax, a, r) ==> r == k,
        forall|b: Seq<char>|
            m.contains_key(b) && #[trigger] schema::may_normalise(attributes["name"@].syntax, b, k)
                ==> !order::str_lt(a, b),
    ensures
        n.contains_key(k),
        n[k].len() == m[a].len(),
        forall|i: int|
            0 <= i < m[a].len() ==> if attributes.contains_key(k) {
                schema::may_normalise(attributes[k].syntax, m[a][i], #[trigger] n[k][i])
            } else {
                n[k][i] == m[a][i]
            },
{
    laws::law_listing(m);
    let raw = attrs::listing(m);
    data::law_listed_attributes(raw, m);
    let s = choose|s: Seq<Ava>| #[trigger]
        validation::normal_avas(attributes, raw, s) && n == validation::collected(s);
    let i = choose|i: int| 0 <= i < raw.len() && (#[trigger] raw[i]).0 == a;
    assert(validation::normal_ava(attributes, raw[i], s[i]));
    assert(s[i].0 == k);
    assert forall|j: int| i < j < s.len() implies (#[trigger] s[j]).0 != s[i].0 by {
        assert(validation::normal_ava(attributes, raw[j], s[j]));
        assert(order::str_lt(raw[i].0, raw[j].0));
        assert(m.contains_key(raw[j].0));
    }
    lemma_collected_last(s, i);
}

/// Where `k` is the normal name of one attribute only, the values that `k` has in normal form
/// are answers of its own syntax to the values of that attribute, one by one, whether it can
/// have one value or several.
pub proof fn law_values_are_normalised<S: Syntax, STATE>(
    e: Entry<EntryInvalid, STATE>,
    schema: SchemaReadTransaction<S>,
    ne: Entry<EntryInvalid, STATE>,
    a: Seq<char>,
    k: Seq<char>,
)
    requires
        call_ensures(Entry::<EntryInvalid, STATE>::normalise, (e, &schema), Ok(ne)),
        forall|b: Seq<char>|
            e@.attrs.contains_key(b) && #[trigger] schema::may_normalise(
                schema.attributes@["name"@].syntax,
                b,
                k,
            ) ==> b == a,
        ne@.attrs.contains_key(k),
    ensures
        ne@.id == e@.id,
        e@.attrs.contains_key(a),
        ne@.attrs[k].len() == e@.attrs[a].len(),
        schema.attributes@.contains_key(k) ==> forall|i: int|
            0 <= i < e@.attrs[a].len() ==> schema::may_normalise(
                schema.attributes@[k].syntax,
                e@.attrs[a][i],
                #[trigger] ne@.attrs[k][i],
            ),
        !schema.attributes@.contains_key(k) ==> ne@.attrs[k] == e@.attrs[a],
{
    law_normal_form(schema.attributes@, e@.attrs, ne@.attrs);
    let (m, n) = (e@.attrs, ne@.attrs);
    let attributes = schema.attributes@;
    let b = choose|b: Seq<char>|
        {
            &&& m.contains_key(b)
            &&& #[trigger] schema::may_normalise(attributes["name"@].syntax, b, k)
            &&& n[k].len() == m[b].len()
            &&& forall|i: int|
                0 <= i < m[b].len() ==> if attributes.contains_key(k) {
                    schema::may_normalise(attributes[k].syntax, m[b][i], #[trigger] n[k][i])
                } else {
                    n[k][i] == m[b][i]
                }
        };
    assert(b == a);
    if !attributes.contains_key(k) {
        assert(n[k] =~= m[a]);
    }
}

/// Normalising fails just when the schema lacks the attribute `name`, and then the schema is
/// named as the reason. What it gives is a normal form of the entry, with its id.
pub proof fn law_normalise<S: Syntax, STATE>(
    e: Entry<EntryInvalid, STATE>,
    schema: SchemaReadTransaction<S>,
    r: Result<Entry<EntryInvalid, STATE>, SchemaError>,
)
    requires
        call_ensures(Entry::<EntryInvalid, STATE>::normalise, (e, &schema), r),
    ensures
        r is Ok <==> schema.attributes@.contains_key("name"@),
        r matches Err(error) ==> error == SchemaError::Corrupted,
        r matches Ok(ne) ==> ne@.id == e@.id && ne.state_mark() == e.state_mark(),
        r matches Ok(ne) ==> e@.attrs.dom().finite() && validation::normal_form(
            schema.attributes@,
            e@.attrs,
            ne@.attrs,
        ),
{
}

/// What comes of checking attributes. If a class is unknown or named twice, that is the error.
/// Else, if something is missing that a class requires, the error names such an attribute. Else
/// it is found whether every attribute is one that the classes allow and the schema knows, or
/// that any will do, and whether the values of those that the schema knows are good; an error
/// is that of the attribute with the smallest name for which this is not so.
pub proof fn law_outcome_of_a_check<S: Syntax>(
    schema: SchemaReadTransaction<S>,
    m: Attrs,
    r: Result<(), SchemaError>,
)
    requires
        m.dom().finite(),
        validation::check_outcome(schema, m, r),
    ensures
        !(m["class"@].no_duplicates() && forall|i: int|
            0 <= i < m["class"@].len() ==> schema.classes@.contains_key(
                #[trigger] m["class"@][i],
            )) ==> r == Err::<(), SchemaError>(SchemaError::InvalidClass),
        (m["class"@].no_duplicates() && forall|i: int|
            0 <= i < m["class"@].len() ==> schema.classes@.contains_key(
                #[trigger] m["class"@][i],
            )) ==> (if exists|attr: Seq<char>|
            !m.contains_key(attr) && #[trigger] schema::required(
                schema.classes@,
                m["class"@],
                attr,
            ) {
            &&& r matches Err(SchemaError::MissingMustAttribute(attr))
            &&& schema::required(schema.classes@, m["class"@], attr@)
            &&& !m.contains_key(attr@)
        } else {
            match r {
                Ok(_) => forall|k: Seq<char>| #[trigger]
                    m.contains_key(k) ==> (m["class"@].contains("extensibleobject"@) || (
                    schema.attributes@.contains_key(k) && schema::allowed(
                        schema.classes@,
                        m["class"@],
                        k,
                    ))) && (schema.attributes@.contains_key(k) ==> schema::may_judge(
                        schema.attributes@[k].syntax,
                        m[k],
                        Ok::<(), SchemaError>(()),
                    )),
                Err(error) => exists|at: Seq<char>|
                    {
                        &&& #[trigger] m.contains_key(at)
                        &&& if m["class"@].contains("extensibleobject"@) || (
                        schema.attributes@.contains_key(at) && schema::allowed(
                            schema.classes@,
                            m["class"@],
                            at,
                        )) {
                            schema.attributes@.contains_key(at) && schema::may_judge(
                                schema.attributes@[at].syntax,
                                m[at],
                                Err::<(), SchemaError>(error),
                            )
                        } else {
                            error == SchemaError::InvalidAttribute
                        }
                        &&& forall|k: Seq<char>| #[trigger]
                            m.contains_key(k) && order::str_lt(k, at) ==> (m["class"@].contains(
                                "extensibleobject"@,
                            ) || (schema.attributes@.contains_key(k) && schema::allowed(
                                schema.classes@,
                                m["class"@],
                                k,
                            ))) && (schema.attributes@.contains_key(k) ==> schema::may_judge(
                                schema.attributes@[k].syntax,
                                m[k],
                                Ok::<(), SchemaError>(()),
                            ))
                    },
            }
        }),
{
    let names = m["class"@];
    laws::law_listing(m);
    let avas = attrs::listing(m);
    data::law_listed_attributes(avas, m);
    if schema::classes_valid(schema.classes@, names) && !(exists|attr: Seq<char>|
        !m.contains_key(attr) && #[trigger] schema::required(schema.classes@, names, attr)) {
        match r {
            Ok(_) => {
                assert forall|k: Seq<char>| #[trigger] m.contains_key(k) implies
                    validation::ava_passes(schema, names, (k, m[k])) by {
                    let i = choose|i: int| 0 <= i < avas.len() && (#[trigger] avas[i]).0 == k;
                    assert(avas[i] == (k, m[k]));
                }
            },
            Err(error) => {
                let n = choose|n: int|
                    {
                        &&& 0 <= n < avas.len()
                        &&& forall|i: int|
                            0 <= i < n ==> validation::ava_passes(
                                schema,
                                names,
                                #[trigger] avas[i],
                            )
                        &&& validation::ava_fails(schema, names, #[trigger] avas[n], error)
                    };
                let at = avas[n].0;
                assert(m.contains_key(at));
                assert forall|k: Seq<char>| #[trigger]
                    m.contains_key(k) && order::str_lt(k, at) implies validation::ava_passes(
                    schema,
                    names,
                    (k, m[k]),
                ) by {
                    let i = choose|i: int| 0 <= i < avas.len() && (#[trigger] avas[i]).0 == k;
                    assert(avas[i] == (k, m[k]));
                    order::lemma_lt_asymmetric(k, at);
                    if i > n {
                        assert(order::str_lt(avas[n].0, avas[i].0));
                    }
                    assert(i < n);
                }
            },
        }
    }
}

/// Checking an entry gives the outcome of checking its attributes.
pub proof fn law_check<S: Syntax, VALID, STATE>(
    e: Entry<VALID, STATE>,
    schema: SchemaReadTransaction<S>,
    r: Result<(), SchemaError>,
)
    requires
        call_ensures(Entry::<VALID, STATE>::check, (&e, &schema), r),
    ensures
        e@.attrs.dom().finite(),
        validation::check_outcome(schema, e@.attrs, r),
{
}

/// A valid entry is a normal form of the one that was validated, with its id. It has classes,
/// all of them known and none named twice, and all that they require. Each attribute is known
/// and allowed by a class, unless any will do, and the values of those that are known were
/// found good.
pub proof fn law_valid_entry<S: Syntax, STATE>(
    e: Entry<EntryInvalid, STATE>,
    schema: SchemaReadTransaction<S>,
    ne: Entry<EntryValid, STATE>,
)
    requires
        call_ensures(Entry::<EntryInvalid, STATE>::validate, (e, &schema), Ok(ne)),
    ensures
        schema.attributes@.contains_key("name"@),
        ne@.id == e@.id,
        ne.state_mark() == e.state_mark(),
        e@.attrs.dom().finite(),
        validation::normal_form(schema.attributes@, e@.attrs, ne@.attrs),
        ne@.attrs.contains_key("class"@),
        ne@.attrs["class"@].no_duplicates(),
        forall|i: int|
            0 <= i < ne@.attrs["class"@].len() ==> schema.classes@.contains_key(
                #[trigger] ne@.attrs["class"@][i],
            ),
        forall|attr: Seq<char>| #[trigger]
            schema::required(schema.classes@, ne@.attrs["class"@], attr)
                ==> ne@.attrs.contains_key(attr) && schema.attributes@.contains_key(attr),
        forall|k: Seq<char>| #[trigger]
            ne@.attrs.contains_key(k) ==> (ne@.attrs["class"@].contains("extensibleobject"@) || (
            schema.attributes@.contains_key(k) && schema::allowed(
                schema.classes@,
                ne@.attrs["class"@],
                k,
            ))) && (schema.attributes@.contains_key(k) ==> schema::may_judge(
                schema.attributes@[k].syntax,
                ne@.attrs[k],
                Ok::<(), SchemaError>(()),
            )),
{
    let n = ne@.attrs;
    lemma_normal_form_finite(schema.attributes@, e@.attrs, n);
    law_outcome_of_a_check(schema, n, Ok(()));
}

/// A normal form has finitely many attributes.
proof fn lemma_normal_form_finite<S: Syntax>(
    attributes: Map<Seq<char>, SchemaAttribute<S>>,
    m: Attrs,
    n: Attrs,
)
    requires
        validation::normal_form(attributes, m, n),
    ensures
        n.dom().finite(),
{
    let s = choose|s: Seq<Ava>| #[trigger]
        validation::normal_avas(attributes, attrs::listing(m), s) && n == validation::collected(s);
    laws::lemma_collected_finite(s);
}

/// An entry is refused because the schema lacks the attribute `name`, or because a normal form
/// of it does not pass the check, and with the error of that check.
pub proof fn law_refused_entry<S: Syntax, STATE>(
    e: Entry<EntryInvalid, STATE>,
    schema: SchemaReadTransaction<S>,
    error: SchemaError,
)
    requires
        call_ensures(Entry::<EntryInvalid, STATE>::validate, (e, &schema), Err(error)),
    ensures
        if schema.attributes@.contains_key("name"@) {
            exists|n: Attrs| #[trigger]
                validation::normal_form(schema.attributes@, e@.attrs, n) && n.dom().finite()
                    && n.contains_key("class"@) && validation::check_outcome(
                    schema,
                    n,
                    Err::<(), SchemaError>(error),
                )
        } else {
            error == SchemaError::Corrupted
        },
{
    if schema.attributes@.contains_key("name"@) {
        let n = choose|n: Attrs| #[trigger]
            validation::normal_form(schema.attributes@, e@.attrs, n) && validation::checkable(
                schema,
                n,
            ) && validation::valid_outcome(
                schema,
                e,
                n,
                Err::<Entry<EntryValid, STATE>, SchemaError>(error),
            );
        lemma_normal_form_finite(schema.attributes@, e@.attrs, n);
    }
}

/// Where validation can be tried on an entry, it is as it is with one that can be validated;
/// where it cannot, a normal form of the entry has no classes, or has classes that are all
/// known and named once and require something that the schema does not know.
pub proof fn law_tried_validation<S: Syntax, STATE>(
    e: Entry<EntryInvalid, STATE>,
    schema: SchemaReadTransaction<S>,
    r: Option<Result<Entry<EntryValid, STATE>, SchemaError>>,
)
    requires
        call_ensures(Entry::<EntryInvalid, STATE>::try_validate, (e, &schema), r),
    ensures
        match r {
            Some(Ok(ne)) => {
                &&& schema.attributes@.contains_key("name"@)
                &&& ne@.id == e@.id
                &&& ne.state_mark() == e.state_mark()
                &&& validation::normal_form(schema.attributes@, e@.attrs, ne@.attrs)
                &&& ne@.attrs.contains_key("class"@)
                &&& validation::check_outcome(schema, ne@.attrs, Ok::<(), SchemaError>(()))
            },
            Some(Err(error)) => schema.attributes@.contains_key("name"@) ==> exists|n: Attrs|
                #[trigger]
                validation::normal_form(schema.attributes@, e@.attrs, n) && n.contains_key(
                    "class"@,
                ) && validation::check_outcome(schema, n, Err::<(), SchemaError>(error)),
            None => schema.attributes@.contains_key("name"@) && exists|n: Attrs| #[trigger]
                validation::normal_form(schema.attributes@, e@.attrs, n) && (n.contains_key(
                    "class"@,
                ) ==> {
                    &&& n["class"@].no_duplicates()
                    &&& forall|i: int|
                        0 <= i < n["class"@].len() ==> schema.classes@.contains_key(
                            #[trigger] n["class"@][i],
                        )
                    &&& exists|attr: Seq<char>| #[trigger]
                        schema::required(schema.classes@, n["class"@], attr)
                            && !schema.attributes@.contains_key(attr)
                }),
        },
        !schema.attributes@.contains_key("name"@) ==> r == Some(
            Err::<Entry<EntryValid, STATE>, SchemaError>(SchemaError::Corrupted),
        ),
{
}

} // verus!
