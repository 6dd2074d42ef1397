//! Entries and the schema.

use vstd::prelude::*;

use crate::attrs;
use crate::attrs::{Attrs, Ava};
use crate::entry::{Entry, EntryInvalid, EntryValid, EntryView};
use crate::map::StringMap;
use crate::schema;
use crate::schema::{SchemaAttribute, SchemaClass, SchemaError, SchemaReadTransaction, Syntax};
use crate::values;

verus! {

/// The attribute `normal` is `raw` in normal form, as far as the syntaxes of the schema
/// answered so: that of the attribute `name` for the name, and that of the attribute with
/// the normal name for the values. Values of an attribute that is not in the schema stay
/// as they are.
pub open spec fn normal_ava<S: Syntax>(
    attributes: Map<Seq<char>, SchemaAttribute<S>>,
    raw: Ava,
    normal: Ava,
) -> bool {
    &&& schema::may_normalise(attributes["name"@].syntax, raw.0, normal.0)
    &&& if attributes.contains_key(normal.0) {
        &&& normal.1.len() == raw.1.len()
        &&& forall|i: int|
            0 <= i < raw.1.len() ==> schema::may_normalise(
                attributes[normal.0].syntax,
                raw.1[i],
                #[trigger] normal.1[i],
            )
    } else {
        normal.1 == raw.1
    }
}

/// The attributes of `normal` are those of `raw` in normal form, one by one.
pub open spec fn normal_avas<S: Syntax>(
    attributes: Map<Seq<char>, SchemaAttribute<S>>,
    raw: Seq<Ava>,
    normal: Seq<Ava>,
) -> bool {
    &&& normal.len() == raw.len()
    &&& forall|i: int|
        0 <= i < raw.len() ==> normal_ava(attributes, raw[i], #[trigger] normal[i])
}

/// The attributes of a list. Of several with one name the last counts.
pub open spec fn collected(s: Seq<Ava>) -> Attrs
    decreases s.len(),
{
    if s.len() == 0 {
        Map::empty()
    } else {
        collected(s.drop_last()).insert(s.last().0, s.last().1)
    }
}

/// The attributes `n` are `m` in normal form. They are normalised in ascending order of the
/// names; of several names with one normal form the last counts.
pub open spec fn normal_form<S: Syntax>(
    attributes: Map<Seq<char>, SchemaAttribute<S>>,
    m: Attrs,
    n: Attrs,
) -> bool {
    exists|s: Seq<Ava>| #[trigger]
        normal_avas(attributes, attrs::listing(m), s) && n == collected(s)
}

/// It can be told whether the attributes conform to the schema: there are classes, and the
/// schema knows what they require.
pub open spec fn checkable<S>(schema: SchemaReadTransaction<S>, m: Attrs) -> bool {
    &&& m.contains_key("class"@)
    &&& schema::classes_valid(schema.classes@, m["class"@]) ==> schema::requirements_known(schema, m["class"@])
}

/// Among the classes is the one whose entries may have any attribute.
pub open spec fn extensible(names: Seq<Seq<char>>) -> bool {
    names.contains("extensibleobject"@)
}

/// An entry of the classes may have the attribute: it is in the schema and one of the classes
/// allows it, or any attribute will do.
pub open spec fn ava_fits<S>(
    schema: SchemaReadTransaction<S>,
    names: Seq<Seq<char>>,
    attr: Seq<char>,
) -> bool {
    extensible(names) || (schema.attributes@.contains_key(attr) && schema::allowed(
        schema.classes@,
        names,
        attr,
    ))
}

/// The attribute conforms to the schema: an entry of the classes may have it, and if it is in
/// the schema, its values were found good.
pub open spec fn ava_passes<S: Syntax>(
    schema: SchemaReadTransaction<S>,
    names: Seq<Seq<char>>,
    ava: Ava,
) -> bool {
    &&& ava_fits(schema, names, ava.0)
    &&& schema.attributes@.contains_key(ava.0) ==> schema::may_judge(
        schema.attributes@[ava.0].syntax,
        ava.1,
        Ok(()),
    )
}

/// The attribute does not conform to the schema, and `e` says why.
pub open spec fn ava_fails<S: Syntax>(
    schema: SchemaReadTransaction<S>,
    names: Seq<Seq<char>>,
    ava: Ava,
    e: SchemaError,
) -> bool {
    if !ava_fits(schema, names, ava.0) {
        e == SchemaError::InvalidAttribute
    } else {
        &&& schema.attributes@.contains_key(ava.0)
        &&& schema::may_judge(schema.attributes@[ava.0].syntax, ava.1, Err(e))
    }
}

/// What comes of checking attributes one by one, up to the first that does not conform.
pub open spec fn avas_outcome<S: Syntax>(
    schema: SchemaReadTransaction<S>,
    names: Seq<Seq<char>>,
    avas: Seq<Ava>,
    r: Result<(), SchemaError>,
) -> bool {
    match r {
        Ok(_) => forall|i: int|
            0 <= i < avas.len() ==> ava_passes(schema, names, #[trigger] avas[i]),
        Err(e) => exists|n: int|
            {
                &&& 0 <= n < avas.len()
                &&& forall|i: int| 0 <= i < n ==> ava_passes(schema, names, #[trigger] avas[i])
                &&& ava_fails(schema, names, #[trigger] avas[n], e)
            },
    }
}

/// What comes of checking attributes against the schema. First the classes must be valid.
/// Then what they require must be there; if something is missing, the error names one such
/// attribute. Then every attribute must conform, in ascending order of the names: one of the
/// classes must allow it, unless the class `extensibleobject` is among them, and its values
/// must be good.
pub open spec fn check_outcome<S: Syntax>(
    schema: SchemaReadTransaction<S>,
    m: Attrs,
    r: Result<(), SchemaError>,
) -> bool {
    let names = m["class"@];
    if !schema::classes_valid(schema.classes@, names) {
        r == Err::<(), SchemaError>(SchemaError::InvalidClass)
    } else if exists|attr: Seq<char>| #[trigger]
        schema::required(schema.classes@, names, attr) && !m.contains_key(attr) {
        &&& r matches Err(SchemaError::MissingMustAttribute(attr))
        &&& schema::required(schema.classes@, names, attr@)
        &&& !m.contains_key(attr@)
    } else {
        avas_outcome(schema, names, attrs::listing(m), r)
    }
}

/// The verdict on an attribute, given that on its values, if it is in the schema, and whether
/// a class of the entry allows it.
pub fn judge_ava(
    verdict: Option<Result<(), SchemaError>>,
    allowed: bool,
    extensible: bool,
) -> (r: Result<(), SchemaError>)
    ensures
        r == (match verdict {
            Some(v) if extensible || allowed => v,
            None if extensible => Ok::<(), SchemaError>(()),
            _ => Err::<(), SchemaError>(SchemaError::InvalidAttribute),
        }),
{
    match verdict {
        Some(v) => if extensible || allowed {
            v
        } else {
            Err(SchemaError::InvalidAttribute)
        },
        None => if extensible {
            Ok(())
        } else {
            Err(SchemaError::InvalidAttribute)
        },
    }
}

/// Normalises the values of an attribute.
fn normal_values<S: Syntax>(attribute: &SchemaAttribute<S>, list: &Vec<String>) -> (r: Vec<String>)
    ensures
        r@.len() == list@.len(),
        forall|i: int|
            0 <= i < r@.len() ==> schema::may_normalise(
                attribute.syntax,
                values::strings(list@)[i],
                #[trigger] values::strings(r@)[i],
            ),
{
    let mut r: Vec<String> = Vec::new();
    for i in 0..list.len()
        invariant
            r@.len() == i,
            forall|j: int|
                0 <= j < i ==> schema::may_normalise(
                    attribute.syntax,
                    values::strings(list@)[j],
                    #[trigger] values::strings(r@)[j],
                ),
    {
        let ghost before = r@;
        r.push(attribute.normalise_value(&list[i]));
        assert forall|j: int| 0 <= j < i + 1 implies schema::may_normalise(
            attribute.syntax,
            values::strings(list@)[j],
            #[trigger] values::strings(r@)[j],
        ) by {
            if j < i {
                assert(values::strings(r@)[j] == values::strings(before)[j]);
            }
        }
    }
    r
}

impl<STATE> Entry<EntryInvalid, STATE> {
    /// Puts the names and values of all attributes into normal form. It is an error if the
    /// schema does not have the attribute `name`, by which names are normalised.
    pub fn normalise<S: Syntax>(self, schema: &SchemaReadTransaction<S>) -> (r: Result<
        Entry<EntryInvalid, STATE>,
        SchemaError,
    >)
        ensures
            self@.attrs.dom().finite(),
            match r {
                Ok(ne) => {
                    &&& schema.attributes@.contains_key("name"@)
                    &&& normal_form(schema.attributes@, self@.attrs, ne@.attrs)
                    &&& ne@.id == self@.id
                    &&& ne.state_mark() == self.state_mark()
                },
                Err(e) => {
                    &&& !schema.attributes@.contains_key("name"@)
                    &&& e == SchemaError::Corrupted
                },
            },
    {
        proof {
            use_type_invariant(&self.attrs);
            self.attrs.lemma_number();
            assert(self@.attrs.dom() =~= self.attrs@.dom());
        }
        let attributes = schema.get_attributes();
        let name_attribute = match attributes.get("name") {
            Some(a) => a,
            None => {
                return Err(SchemaError::Corrupted);
            },
        };
        let mut new_attrs: StringMap<Vec<String>> = StringMap::new();
        proof {
            use_type_invariant(&self.attrs);
            self.attrs.lemma_listed();
            attrs::lemma_avas_of(self.attrs);
        }
        let ghost raw = attrs::listing(self@.attrs);
        let ghost mut normal: Seq<Ava> = Seq::empty();
        let n: usize = self.attrs.len();
        assert(attrs::attrs_of(new_attrs) =~= collected(normal));
        for i in 0..n
            invariant
                n == self.attrs.names().len(),
                raw == attrs::avas_of(self.attrs),
                raw.len() == n,
                *attributes == schema.attributes,
                attributes@.contains_key("name"@),
                *name_attribute == attributes@["name"@],
                normal.len() == i,
                forall|j: int|
                    0 <= j < i ==> normal_ava(attributes@, raw[j], #[trigger] normal[j]),
                attrs::attrs_of(new_attrs) == collected(normal),
        {
            let list = self.attrs.item_at(i);
            let name: String = name_attribute.normalise_value(self.attrs.name_at(i));
            let normal_list: Vec<String> = match attributes.get(name.as_str()) {
                Some(attribute) => normal_values(attribute, list),
                None => values::copy_list(list),
            };
            let ghost before = new_attrs;
            let ghost ava = (name@, values::strings(normal_list@));
            proof {
                assert(raw[i as int] == (self.attrs.names()[i as int], values::strings(list@)));
                assert(normal_ava(attributes@, raw[i as int], ava));
            }
            new_attrs.insert(name, normal_list);
            proof {
                attrs::lemma_attrs_insert(before, new_attrs, ava.0, normal_list);
                let after = normal.push(ava);
                assert(after.drop_last() =~= normal);
                assert(after.last() == ava);
                normal = after;
            }
        }
        assert(normal_avas(schema.attributes@, raw, normal));
        Ok(Entry { valid: self.valid, state: self.state, id: self.id, attrs: new_attrs })
    }
}

impl<VALID, STATE> Entry<VALID, STATE> {
    /// Tells whether the entry can be checked against the schema.
    pub fn is_checkable<S>(&self, schema: &SchemaReadTransaction<S>) -> (r: bool)
        ensures
            r == checkable(*schema, self@.attrs),
    {
        match attrs::get_values(&self.attrs, "class") {
            Some(list) => !schema.are_classes_valid(list)
                || schema.knows_requirements(list),
            None => false,
        }
    }

    /// The first of the strings that is not the name of an attribute of the entry.
    fn first_missing(&self, names: &Vec<String>) -> (r: Option<String>)
        ensures
            match r {
                Some(attr) => values::strings(names@).contains(attr@)
                    && !self@.attrs.contains_key(attr@),
                None => forall|attr: Seq<char>| #[trigger]
                    values::strings(names@).contains(attr) ==> self@.attrs.contains_key(attr),
            },
    {
        let ghost s = values::strings(names@);
        for i in 0..names.len()
            invariant
                s == values::strings(names@),
                forall|j: int| 0 <= j < i ==> self@.attrs.contains_key(#[trigger] s[j]),
        {
            assert(s[i as int] == names@[i as int]@);
            if self.get_ava(&names[i]).is_none() {
                return Some(names[i].clone());
            }
        }
        None
    }

    /// An attribute that one of the classes requires and that the entry does not have.
    fn missing_must(&self, names: &Vec<String>, classes: &StringMap<SchemaClass>) -> (r: Option<
        String,
    >)
        ensures
            match r {
                Some(attr) => schema::required(classes@, values::strings(names@), attr@)
                    && !self@.attrs.contains_key(attr@),
                None => forall|attr: Seq<char>| #[trigger]
                    schema::required(classes@, values::strings(names@), attr)
                        ==> self@.attrs.contains_key(attr),
            },
    {
        let ghost s = values::strings(names@);
        for i in 0..names.len()
            invariant
                s == values::strings(names@),
                forall|j: int, attr: Seq<char>|
                    0 <= j < i && classes@.contains_key(#[trigger] s[j])
                        && #[trigger] classes@[s[j]].requires_attribute(attr)
                        ==> self@.attrs.contains_key(attr),
        {
            assert(s[i as int] == names@[i as int]@);
            match classes.get(names[i].as_str()) {
                Some(class) => {
                    let missing = match self.first_missing(&class.systemmust) {
                        Some(attr) => Some(attr),
                        None => self.first_missing(&class.must),
                    };
                    if missing.is_some() {
                        return missing;
                    }
                },
                None => {},
            }
        }
        None
    }

    /// Checks every attribute, up to the first that does not conform to the schema.
    fn check_avas<S: Syntax>(
        &self,
        schema: &SchemaReadTransaction<S>,
        names: &Vec<String>,
    ) -> (r: Result<(), SchemaError>)
        ensures
            avas_outcome(*schema, values::strings(names@), attrs::listing(self@.attrs), r),
    {
        proof {
            use_type_invariant(&self.attrs);
            attrs::lemma_avas_of(self.attrs);
        }
        let ghost avas = attrs::listing(self@.attrs);
        let ghost classes = values::strings(names@);
        let attributes = schema.get_attributes();
        let extensible = values::contains(names, "extensibleobject");
        let n: usize = self.attrs.len();
        for i in 0..n
            invariant
                n == self.attrs.names().len(),
                avas == attrs::avas_of(self.attrs),
                avas == attrs::listing(self@.attrs),
                avas.len() == n,
                classes == values::strings(names@),
                *attributes == schema.attributes,
                extensible == self::extensible(classes),
                forall|j: int| 0 <= j < i ==> ava_passes(*schema, classes, #[trigger] avas[j]),
        {
            let attr = self.attrs.name_at(i).as_str();
            let list = self.attrs.item_at(i);
            let verdict = match attributes.get(attr) {
                Some(attribute) => Some(attribute.validate_ava(list)),
                None => None,
            };
            let allowed = schema.is_allowed(names, attr);
            assert(avas[i as int] == (self.attrs.names()[i as int], values::strings(list@)));
            match judge_ava(verdict, allowed, extensible) {
                Ok(unit) => {
                    assert(unit == ());
                    assert(ava_passes(*schema, classes, avas[i as int]));
                },
                Err(e) => {
                    assert(ava_fails(*schema, classes, avas[i as int], e));
                    return Err(e);
                },
            }
        }
        Ok(())
    }

    /// Checks the entry against the schema: its classes, then the attributes that they
    /// require, then every attribute.
    pub fn check<S: Syntax>(&self, schema: &SchemaReadTransaction<S>) -> (r: Result<
        (),
        SchemaError,
    >)
        requires
            checkable(*schema, self@.attrs),
        ensures
            self@.attrs.dom().finite(),
            check_outcome(*schema, self@.attrs, r),
    {
        proof {
            use_type_invariant(&self.attrs);
            self.attrs.lemma_number();
            assert(self@.attrs.dom() =~= self.attrs@.dom());
        }
        let schema_classes = schema.get_classes();
        let entry_classes: &Vec<String> = match attrs::get_values(&self.attrs, "class") {
            Some(list) => list,
            None => vstd::pervasive::unreached(),
        };
        if !schema.are_classes_valid(entry_classes) {
            return Err(SchemaError::InvalidClass);
        }
        match self.missing_must(entry_classes, schema_classes) {
            Some(attr) => Err(SchemaError::MissingMustAttribute(attr)),
            None => self.check_avas(schema, entry_classes),
        }
    }
}

/// What comes of validating an entry that has the normal form `n`.
pub open spec fn valid_outcome<S: Syntax, STATE>(
    schema: SchemaReadTransaction<S>,
    e: Entry<EntryInvalid, STATE>,
    n: Attrs,
    r: Result<Entry<EntryValid, STATE>, SchemaError>,
) -> bool {
    match r {
        Ok(ne) => {
            &&& check_outcome(schema, n, Ok(()))
            &&& ne@ == EntryView { id: e@.id, attrs: n }
            &&& ne.state_mark() == e.state_mark()
        },
        Err(error) => check_outcome(schema, n, Err(error)),
    }
}

impl<STATE> Entry<EntryInvalid, STATE> {
    /// Normalises the entry and checks it against the schema, unless it turns out that it
    /// cannot be checked.
    pub fn try_validate<S: Syntax>(self, schema: &SchemaReadTransaction<S>) -> (r: Option<
        Result<Entry<EntryValid, STATE>, SchemaError>,
    >)
        ensures
            self@.attrs.dom().finite(),
            !schema.attributes@.contains_key("name"@) ==> r == Some(
                Err::<Entry<EntryValid, STATE>, SchemaError>(SchemaError::Corrupted),
            ),
            schema.attributes@.contains_key("name"@) ==> exists|n: Attrs| #[trigger]
                normal_form(schema.attributes@, self@.attrs, n) && match r {
                    Some(outcome) => checkable(*schema, n) && valid_outcome(
                        *schema,
                        self,
                        n,
                        outcome,
                    ),
                    None => !checkable(*schema, n),
                },
    {
        let ne = match self.normalise(schema) {
            Ok(ne) => ne,
            Err(e) => {
                return Some(Err(e));
            },
        };
        if !ne.is_checkable(schema) {
            return None;
        }
        match ne.check(schema) {
            Ok(_) => Some(
                Ok(Entry { valid: EntryValid, state: ne.state, id: ne.id, attrs: ne.attrs }),
            ),
            Err(e) => Some(Err(e)),
        }
    }

    /// Normalises the entry and checks it against the schema. In normal form it must have
    /// classes, and what they require must be in the schema.
    pub fn validate<S: Syntax>(self, schema: &SchemaReadTransaction<S>) -> (r: Result<
        Entry<EntryValid, STATE>,
        SchemaError,
    >)
        requires
            schema.attributes@.contains_key("name"@) ==> forall|n: Attrs| #[trigger]
                normal_form(schema.attributes@, self@.attrs, n) ==> checkable(*schema, n),
        ensures
            self@.attrs.dom().finite(),
            !schema.attributes@.contains_key("name"@) ==> r == Err::<
                Entry<EntryValid, STATE>,
                SchemaError,
            >(SchemaError::Corrupted),
            schema.attributes@.contains_key("name"@) ==> exists|n: Attrs| #[trigger]
                normal_form(schema.attributes@, self@.attrs, n) && checkable(*schema, n)
                    && valid_outcome(*schema, self, n, r),
    {
        match self.try_validate(schema) {
            Some(r) => r,
            None => vstd::pervasive::unreached(),
        }
    }
}

} // verus!
