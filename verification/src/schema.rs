//! The schema: which classes and attributes there are, what a class requires and allows of an
//! entry, and how the values of an attribute are normalised and checked.

use vstd::prelude::*;

use crate::map::StringMap;
use crate::order;
use crate::values;

verus! {

/// Why an entry does not conform to the schema.
#[derive(Debug, PartialEq)]
pub enum SchemaError {
    /// The schema itself is not complete.
    Corrupted,
    /// A class of the entry is not in the schema, or is named twice.
    InvalidClass,
    /// An attribute that a class of the entry requires is not there.
    MissingMustAttribute(String),
    /// An attribute of the entry is not in the schema, or no class of the entry allows it.
    InvalidAttribute,
    /// The values of an attribute do not have the form that they should have.
    InvalidAttributeSyntax,
}

/// What a class requires and allows: the attributes that an entry of the class must have, and
/// those that it may have besides.
pub struct SchemaClass {
    pub systemmust: Vec<String>,
    pub must: Vec<String>,
    pub systemmay: Vec<String>,
    pub may: Vec<String>,
}

impl SchemaClass {
    /// An entry of this class must have the attribute.
    pub open spec fn requires_attribute(self, attr: Seq<char>) -> bool {
        values::strings(self.systemmust@).contains(attr) || values::strings(self.must@).contains(
            attr,
        )
    }

    /// An entry of this class may have the attribute. What it must have it may have, too.
    pub open spec fn allows_attribute(self, attr: Seq<char>) -> bool {
        self.requires_attribute(attr) || values::strings(self.systemmay@).contains(attr)
            || values::strings(self.may@).contains(attr)
    }

    /// Tells whether an entry of this class may have the attribute.
    pub fn allows(&self, attr: &str) -> (r: bool)
        ensures
            r == self.allows_attribute(attr@),
    {
        values::contains(&self.systemmust, attr) || values::contains(&self.must, attr)
            || values::contains(&self.systemmay, attr) || values::contains(&self.may, attr)
    }
}

/// How values of a certain kind are normalised and checked. Nothing is presumed of an
/// implementation: what it answers is taken as it comes, and two calls may differ.
pub trait Syntax {
    /// The normal form of a value.
    fn normalise_value(&self, value: &String) -> String;

    /// Checks all values of an attribute together.
    fn validate_ava(&self, ava: &Vec<String>) -> Result<(), SchemaError>;
}

/// What the schema says of an attribute.
pub struct SchemaAttribute<S> {
    /// The attribute can have more than one value.
    pub multivalue: bool,
    /// The kind of its values.
    pub syntax: S,
}

/// The string `normal` is an answer of `syntax` when it is asked for the normal form of
/// `value`.
pub open spec fn may_normalise<S: Syntax>(syntax: S, value: Seq<char>, normal: Seq<char>) -> bool {
    exists|v: String, n: String|
        v@ == value && n@ == normal && #[trigger] call_ensures(
            S::normalise_value,
            (&syntax, &v),
            n,
        )
}

/// `verdict` is an answer of `syntax` when it is asked to check `ava`.
pub open spec fn may_judge<S: Syntax>(
    syntax: S,
    ava: Seq<Seq<char>>,
    verdict: Result<(), SchemaError>,
) -> bool {
    exists|v: Vec<String>|
        values::strings(v@) == ava && #[trigger] call_ensures(
            S::validate_ava,
            (&syntax, &v),
            verdict,
        )
}

impl<S: Syntax> SchemaAttribute<S> {
    /// The normal form of a value.
    pub fn normalise_value(&self, value: &String) -> (r: String)
        ensures
            may_normalise(self.syntax, value@, r@),
    {
        let r = self.syntax.normalise_value(value);
        assert(call_ensures(S::normalise_value, (&self.syntax, value), r));
        r
    }

    /// Checks all values of an attribute together.
    pub fn validate_ava(&self, ava: &Vec<String>) -> (r: Result<(), SchemaError>)
        ensures
            may_judge(self.syntax, values::strings(ava@), r),
    {
        let r = self.syntax.validate_ava(ava);
        assert(call_ensures(S::validate_ava, (&self.syntax, ava), r));
        r
    }
}

/// The schema as a reader sees it.
pub struct SchemaReadTransaction<S> {
    pub classes: StringMap<SchemaClass>,
    pub attributes: StringMap<SchemaAttribute<S>>,
}

impl<S> SchemaReadTransaction<S> {
    /// The classes by their names.
    pub fn get_classes(&self) -> (r: &StringMap<SchemaClass>)
        ensures
            *r == self.classes,
    {
        &self.classes
    }

    /// The attributes by their names.
    pub fn get_attributes(&self) -> (r: &StringMap<SchemaAttribute<S>>)
        ensures
            *r == self.attributes,
    {
        &self.attributes
    }

    /// Tells whether an attribute can have more than one value. An attribute that is not in
    /// the schema is an error.
    pub fn is_multivalue(&self, attr: &str) -> (r: Result<bool, SchemaError>)
        ensures
            r == (if self.attributes@.contains_key(attr@) {
                Ok::<bool, SchemaError>(self.attributes@[attr@].multivalue)
            } else {
                Err::<bool, SchemaError>(SchemaError::InvalidAttribute)
            }),
    {
        match self.attributes.get(attr) {
            Some(a) => Ok(a.multivalue),
            None => Err(SchemaError::InvalidAttribute),
        }
    }
}

/// The classes are all in the schema, and none is named twice.
pub open spec fn classes_valid(
    classes: Map<Seq<char>, SchemaClass>,
    names: Seq<Seq<char>>,
) -> bool {
    &&& names.no_duplicates()
    &&& forall|i: int| 0 <= i < names.len() ==> classes.contains_key(#[trigger] names[i])
}

/// One of the classes requires the attribute.
pub open spec fn required(
    classes: Map<Seq<char>, SchemaClass>,
    names: Seq<Seq<char>>,
    attr: Seq<char>,
) -> bool {
    exists|i: int|
        0 <= i < names.len() && classes.contains_key(#[trigger] names[i])
            && classes[names[i]].requires_attribute(attr)
}

/// One of the classes allows the attribute.
pub open spec fn allowed(
    classes: Map<Seq<char>, SchemaClass>,
    names: Seq<Seq<char>>,
    attr: Seq<char>,
) -> bool {
    exists|i: int|
        0 <= i < names.len() && classes.contains_key(#[trigger] names[i])
            && classes[names[i]].allows_attribute(attr)
}

/// What the classes require is in the schema.
pub open spec fn requirements_known<S>(
    schema: SchemaReadTransaction<S>,
    names: Seq<Seq<char>>,
) -> bool {
    forall|attr: Seq<char>| #[trigger]
        required(schema.classes@, names, attr) ==> schema.attributes@.contains_key(attr)
}

impl<S> SchemaReadTransaction<S> {
    /// Tells whether all of the strings are names of attributes in the schema.
    fn knows_all(&self, names: &Vec<String>) -> (r: bool)
        ensures
            r == forall|attr: Seq<char>| #[trigger]
                values::strings(names@).contains(attr) ==> self.attributes@.contains_key(attr),
    {
        let ghost s = values::strings(names@);
        for i in 0..names.len()
            invariant
                s == values::strings(names@),
                forall|j: int| 0 <= j < i ==> self.attributes@.contains_key(#[trigger] s[j]),
        {
            assert(s[i as int] == names@[i as int]@);
            if !self.attributes.contains_key(names[i].as_str()) {
                assert(s.contains(s[i as int]));
                return false;
            }
        }
        true
    }

    /// Tells whether what the classes require is in the schema.
    pub fn knows_requirements(&self, names: &Vec<String>) -> (r: bool)
        ensures
            r == requirements_known(*self, values::strings(names@)),
    {
        let ghost s = values::strings(names@);
        for i in 0..names.len()
            invariant
                s == values::strings(names@),
                forall|j: int, attr: Seq<char>|
                    0 <= j < i && self.classes@.contains_key(#[trigger] s[j])
                        && #[trigger] self.classes@[s[j]].requires_attribute(attr)
                        ==> self.attributes@.contains_key(attr),
        {
            assert(s[i as int] == names@[i as int]@);
            match self.classes.get(names[i].as_str()) {
                Some(class) => {
                    if !self.knows_all(&class.systemmust) {
                        proof {
                            let attr = choose|attr: Seq<char>| #[trigger]
                                values::strings(class.systemmust@).contains(attr)
                                    && !self.attributes@.contains_key(attr);
                            assert(required(self.classes@, s, attr));
                        }
                        return false;
                    }
                    if !self.knows_all(&class.must) {
                        proof {
                            let attr = choose|attr: Seq<char>| #[trigger]
                                values::strings(class.must@).contains(attr)
                                    && !self.attributes@.contains_key(attr);
                            assert(required(self.classes@, s, attr));
                        }
                        return false;
                    }
                },
                None => {},
            }
        }
        true
    }

    /// Tells whether one of the classes allows the attribute.
    pub fn is_allowed(&self, names: &Vec<String>, attr: &str) -> (r: bool)
        ensures
            r == allowed(self.classes@, values::strings(names@), attr@),
    {
        let ghost s = values::strings(names@);
        for i in 0..names.len()
            invariant
                s == values::strings(names@),
                forall|j: int|
                    0 <= j < i && self.classes@.contains_key(#[trigger] s[j])
                        ==> !self.classes@[s[j]].allows_attribute(attr@),
        {
            assert(s[i as int] == names@[i as int]@);
            match self.classes.get(names[i].as_str()) {
                Some(class) => {
                    if class.allows(attr) {
                        return true;
                    }
                },
                None => {},
            }
        }
        false
    }

    /// Tells whether all of the strings are names of classes, each a different one.
    pub fn are_classes_valid(&self, names: &Vec<String>) -> (r: bool)
        ensures
            r == classes_valid(self.classes@, values::strings(names@)),
    {
        let ghost s = values::strings(names@);
        for i in 0..names.len()
            invariant
                s == values::strings(names@),
                forall|j: int| 0 <= j < i ==> self.classes@.contains_key(#[trigger] s[j]),
                forall|j: int, k: int| 0 <= j < k < i ==> s[j] != s[k],
        {
            assert(s[i as int] == names@[i as int]@);
            if !self.classes.contains_key(names[i].as_str()) {
                return false;
            }
            for j in 0..i
                invariant
                    s == values::strings(names@),
                    i < names@.len(),
                    forall|k: int| 0 <= k < j ==> #[trigger] s[k] != s[i as int],
            {
                assert(s[j as int] == names@[j as int]@ && s[i as int] == names@[i as int]@);
                if order::same(names[j].as_str(), names[i].as_str()) {
                    return false;
                }
            }
        }
        true
    }
}

} // verus!
