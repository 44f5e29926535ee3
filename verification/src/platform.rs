//! What the platform offers: global methods and properties, and types.
//!
//! A system enumeration is a type too: one whose list of values is not empty.
use crate::text;
use crate::text::{same_text, to_lower};
use vstd::prelude::*;

verus! {

/// A parameter of a method or of a constructor.
#[derive(Debug, Clone)]
pub struct Parameter {
    pub name: String,
    pub value_type: String,
    pub required: bool,
    pub description: String,
}

/// One way to call a method or a constructor.
#[derive(Debug, Clone)]
pub struct Signature {
    pub name: String,
    pub description: String,
    pub parameters: Vec<Parameter>,
}

/// A method, global or of a type. The English name may be empty.
#[derive(Debug, Clone)]
pub struct Method {
    pub name_ru: String,
    pub name_en: String,
    pub description: String,
    pub return_type: String,
    pub signatures: Vec<Signature>,
}

/// A property, global or of a type. The English name may be empty.
#[derive(Debug, Clone)]
pub struct Property {
    pub name_ru: String,
    pub name_en: String,
    pub description: String,
    pub value_type: String,
    pub readonly: bool,
}

/// A value of a system enumeration.
#[derive(Debug, Clone)]
pub struct EnumValue {
    pub name_ru: String,
    pub name_en: String,
    pub description: String,
}

/// A type of the platform.
#[derive(Debug, Clone)]
pub struct Type {
    pub name_ru: String,
    pub name_en: String,
    pub description: String,
    pub methods: Vec<Method>,
    pub properties: Vec<Property>,
    pub constructors: Vec<Signature>,
    pub enum_values: Vec<EnumValue>,
}

impl Type {
    /// Whether the type is a system enumeration.
    pub fn is_enum(&self) -> (r: bool)
        ensures
            r == (self.enum_values.len() > 0),
    {
        self.enum_values.len() > 0
    }
}

/// The Russian or the English name is the lower-case name `key`; an empty English name
/// is no name.
pub open spec fn either_name(name_ru: Seq<char>, name_en: Seq<char>, key: Seq<char>) -> bool {
    text::lowercase(name_ru) == key || (name_en.len() > 0 && text::lowercase(name_en) == key)
}

/// Whether one of two names is the lower-case name `key`; an empty English name is no name.
pub fn has_name(name_ru: &str, name_en: &str, key: &str) -> (r: bool)
    ensures
        r == either_name(name_ru@, name_en@, key@),
{
    same_text(to_lower(name_ru).as_str(), key) || (!name_en.is_empty() && same_text(
        to_lower(name_en).as_str(),
        key,
    ))
}

/// The first position, from `i` on, of a type whose Russian name is `key` in lower case.
pub open spec fn type_by_ru(types: Seq<Type>, key: Seq<char>, i: int) -> Option<int>
    decreases types.len() - i,
{
    if i < 0 || i >= types.len() {
        None
    } else if text::lowercase(types[i].name_ru@) == key {
        Some(i)
    } else {
        type_by_ru(types, key, i + 1)
    }
}

/// The first position, from `i` on, of a type with an English name that is `key` in lower
/// case.
pub open spec fn type_by_en(types: Seq<Type>, key: Seq<char>, i: int) -> Option<int>
    decreases types.len() - i,
{
    if i < 0 || i >= types.len() {
        None
    } else if types[i].name_en@.len() > 0 && text::lowercase(types[i].name_en@) == key {
        Some(i)
    } else {
        type_by_en(types, key, i + 1)
    }
}

/// The type that a name stands for, whatever its letter case. A Russian name goes before
/// an English one.
pub open spec fn type_named(types: Seq<Type>, name: Seq<char>) -> Option<Type> {
    let key = text::lowercase(name);
    match type_by_ru(types, key, 0) {
        Some(i) => Some(types[i]),
        None => match type_by_en(types, key, 0) {
            Some(i) => Some(types[i]),
            None => None,
        },
    }
}

/// The first global method, from `i` on, with a name.
pub open spec fn method_from(methods: Seq<Method>, key: Seq<char>, i: int) -> Option<Method>
    decreases methods.len() - i,
{
    if i < 0 || i >= methods.len() {
        None
    } else if either_name(methods[i].name_ru@, methods[i].name_en@, key) {
        Some(methods[i])
    } else {
        method_from(methods, key, i + 1)
    }
}

/// The global method that a name stands for, whatever its letter case.
pub open spec fn method_named(methods: Seq<Method>, name: Seq<char>) -> Option<Method> {
    method_from(methods, text::lowercase(name), 0)
}

/// The first global property, from `i` on, with a name.
pub open spec fn property_from(properties: Seq<Property>, key: Seq<char>, i: int) -> Option<Property>
    decreases properties.len() - i,
{
    if i < 0 || i >= properties.len() {
        None
    } else if either_name(properties[i].name_ru@, properties[i].name_en@, key) {
        Some(properties[i])
    } else {
        property_from(properties, key, i + 1)
    }
}

/// The global property that a name stands for, whatever its letter case.
pub open spec fn property_named(properties: Seq<Property>, name: Seq<char>) -> Option<Property> {
    property_from(properties, text::lowercase(name), 0)
}

/// Some method of a list has the lower-case name `key`.
pub open spec fn some_method(methods: Seq<Method>, key: Seq<char>) -> bool {
    exists|i: int|
        0 <= i < methods.len() && either_name(
            (#[trigger] methods[i]).name_ru@,
            methods[i].name_en@,
            key,
        )
}

/// Some type has a method with the lower-case name `key`.
pub open spec fn some_type_method(types: Seq<Type>, key: Seq<char>) -> bool {
    exists|i: int| 0 <= i < types.len() && some_method((#[trigger] types[i]).methods@, key)
}

/// Whether some method of a list has the lower-case name `key`.
pub fn holds_method(methods: &Vec<Method>, key: &str) -> (r: bool)
    ensures
        r == some_method(methods@, key@),
{
    let mut i: usize = 0;
    while i < methods.len()
        invariant
            i <= methods.len(),
            forall|k: int|
                0 <= k < i ==> !either_name((#[trigger] methods[k]).name_ru@, methods[k].name_en@, key@),
        decreases methods.len() - i,
    {
        if has_name(methods[i].name_ru.as_str(), methods[i].name_en.as_str(), key) {
            assert(either_name(methods@[i as int].name_ru@, methods@[i as int].name_en@, key@));
            return true;
        }
        i += 1;
    }
    false
}

/// The Russian or the English name is the lower-case name `key`.
pub open spec fn named_as(name_ru: Seq<char>, name_en: Seq<char>, key: Seq<char>) -> bool {
    text::lowercase(name_ru) == key || text::lowercase(name_en) == key
}

/// Whether one of two names is the lower-case name `key`.
pub fn is_named(name_ru: &str, name_en: &str, key: &str) -> (r: bool)
    ensures
        r == named_as(name_ru@, name_en@, key@),
{
    same_text(to_lower(name_ru).as_str(), key) || same_text(to_lower(name_en).as_str(), key)
}

/// The first position, from `i` on, of a method with a lower-case name.
pub open spec fn method_at(methods: Seq<Method>, key: Seq<char>, i: int) -> Option<int>
    decreases methods.len() - i,
{
    if i < 0 || i >= methods.len() {
        None
    } else if named_as(methods[i].name_ru@, methods[i].name_en@, key) {
        Some(i)
    } else {
        method_at(methods, key, i + 1)
    }
}

/// The first position, from `i` on, of a property with a lower-case name.
pub open spec fn property_at(properties: Seq<Property>, key: Seq<char>, i: int) -> Option<int>
    decreases properties.len() - i,
{
    if i < 0 || i >= properties.len() {
        None
    } else if named_as(properties[i].name_ru@, properties[i].name_en@, key) {
        Some(i)
    } else {
        property_at(properties, key, i + 1)
    }
}

/// The first position, from `i` on, of a value with a lower-case name.
pub open spec fn value_at(values: Seq<EnumValue>, key: Seq<char>, i: int) -> Option<int>
    decreases values.len() - i,
{
    if i < 0 || i >= values.len() {
        None
    } else if named_as(values[i].name_ru@, values[i].name_en@, key) {
        Some(i)
    } else {
        value_at(values, key, i + 1)
    }
}

/// The type has a method or a property with a lower-case name.
pub open spec fn has_member(ty: Type, key: Seq<char>) -> bool {
    method_at(ty.methods@, key, 0) is Some || property_at(ty.properties@, key, 0) is Some
}

/// The position of the first method of a list with a lower-case name.
pub fn find_method(methods: &Vec<Method>, key: &str) -> (r: Option<usize>)
    ensures
        match r {
            Some(i) => i < methods.len() && method_at(methods@, key@, 0) == Some(i as int),
            None => method_at(methods@, key@, 0) is None,
        },
{
    let mut i: usize = 0;
    while i < methods.len()
        invariant
            i <= methods.len(),
            method_at(methods@, key@, 0) == method_at(methods@, key@, i as int),
        decreases methods.len() - i,
    {
        if is_named(methods[i].name_ru.as_str(), methods[i].name_en.as_str(), key) {
            return Some(i);
        }
        i += 1;
    }
    None
}

/// The position of the first property of a list with a lower-case name.
pub fn find_property(properties: &Vec<Property>, key: &str) -> (r: Option<usize>)
    ensures
        match r {
            Some(i) => i < properties.len() && property_at(properties@, key@, 0) == Some(i as int),
            None => property_at(properties@, key@, 0) is None,
        },
{
    let mut i: usize = 0;
    while i < properties.len()
        invariant
            i <= properties.len(),
            property_at(properties@, key@, 0) == property_at(properties@, key@, i as int),
        decreases properties.len() - i,
    {
        if is_named(properties[i].name_ru.as_str(), properties[i].name_en.as_str(), key) {
            return Some(i);
        }
        i += 1;
    }
    None
}

/// The position of the first value of a list with a lower-case name.
pub fn find_value(values: &Vec<EnumValue>, key: &str) -> (r: Option<usize>)
    ensures
        match r {
            Some(i) => i < values.len() && value_at(values@, key@, 0) == Some(i as int),
            None => value_at(values@, key@, 0) is None,
        },
{
    let mut i: usize = 0;
    while i < values.len()
        invariant
            i <= values.len(),
            value_at(values@, key@, 0) == value_at(values@, key@, i as int),
        decreases values.len() - i,
    {
        if is_named(values[i].name_ru.as_str(), values[i].name_en.as_str(), key) {
            return Some(i);
        }
        i += 1;
    }
    None
}

/// Whether a type has a method or a property with a lower-case name.
pub fn type_has_member(ty: &Type, key: &str) -> (r: bool)
    ensures
        r == has_member(*ty, key@),
{
    find_method(&ty.methods, key).is_some() || find_property(&ty.properties, key).is_some()
}

/// The Russian names of a list of methods.
pub open spec fn method_names(v: Seq<Method>) -> Seq<Seq<char>> {
    v.map_values(|m: Method| m.name_ru@)
}

/// The Russian names of a list of properties.
pub open spec fn property_names(v: Seq<Property>) -> Seq<Seq<char>> {
    v.map_values(|p: Property| p.name_ru@)
}

/// The Russian names of a list of values.
pub open spec fn value_names(v: Seq<EnumValue>) -> Seq<Seq<char>> {
    v.map_values(|e: EnumValue| e.name_ru@)
}

/// The Russian names of a list of types.
pub open spec fn names_of_types(v: Seq<Type>) -> Seq<Seq<char>> {
    v.map_values(|t: Type| t.name_ru@)
}

/// The Russian names of the methods of a type, then those of its properties.
pub fn member_names(ty: &Type) -> (r: Vec<String>)
    ensures
        text::texts(r@) == method_names(ty.methods@) + property_names(ty.properties@),
{
    let mut out: Vec<String> = Vec::new();
    let mut i: usize = 0;
    while i < ty.methods.len()
        invariant
            i <= ty.methods.len(),
            text::texts(out@) == method_names(ty.methods@).take(i as int),
        decreases ty.methods.len() - i,
    {
        let name = ty.methods[i].name_ru.clone();
        proof {
            text::lemma_texts_push(out@, name);
            assert(method_names(ty.methods@).take(i + 1) =~= method_names(ty.methods@).take(
                i as int,
            ).push(name@));
        }
        out.push(name);
        i += 1;
    }
    let ghost methods = method_names(ty.methods@);
    assert(methods.take(i as int) =~= methods);
    let mut j: usize = 0;
    assert(methods + property_names(ty.properties@).take(0) =~= methods);
    while j < ty.properties.len()
        invariant
            j <= ty.properties.len(),
            text::texts(out@) == methods + property_names(ty.properties@).take(j as int),
        decreases ty.properties.len() - j,
    {
        let name = ty.properties[j].name_ru.clone();
        proof {
            text::lemma_texts_push(out@, name);
            assert(methods + property_names(ty.properties@).take(j + 1) =~= (methods
                + property_names(ty.properties@).take(j as int)).push(name@));
        }
        out.push(name);
        j += 1;
    }
    assert(property_names(ty.properties@).take(j as int) =~= property_names(ty.properties@));
    out
}

/// The Russian names of the values of an enumeration.
pub fn names_of_values(values: &Vec<EnumValue>) -> (r: Vec<String>)
    ensures
        text::texts(r@) == value_names(values@),
{
    let mut out: Vec<String> = Vec::new();
    let mut i: usize = 0;
    while i < values.len()
        invariant
            i <= values.len(),
            text::texts(out@) == value_names(values@).take(i as int),
        decreases values.len() - i,
    {
        let name = values[i].name_ru.clone();
        proof {
            text::lemma_texts_push(out@, name);
            assert(value_names(values@).take(i + 1) =~= value_names(values@).take(i as int).push(name@));
        }
        out.push(name);
        i += 1;
    }
    assert(value_names(values@).take(i as int) =~= value_names(values@));
    out
}

/// The Russian names of a list of types.
pub fn type_names(types: &Vec<Type>) -> (r: Vec<String>)
    ensures
        text::texts(r@) == names_of_types(types@),
{
    let mut out: Vec<String> = Vec::new();
    let mut i: usize = 0;
    while i < types.len()
        invariant
            i <= types.len(),
            text::texts(out@) == names_of_types(types@).take(i as int),
        decreases types.len() - i,
    {
        let name = types[i].name_ru.clone();
        proof {
            text::lemma_texts_push(out@, name);
            assert(names_of_types(types@).take(i + 1) =~= names_of_types(types@).take(i as int).push(
                name@,
            ));
        }
        out.push(name);
        i += 1;
    }
    assert(names_of_types(types@).take(i as int) =~= names_of_types(types@));
    out
}

/// The contents of the platform help.
#[derive(Debug, Clone)]
pub struct PlatformIndex {
    pub global_methods: Vec<Method>,
    pub global_properties: Vec<Property>,
    /// Types and enumerations, one for each Russian name in lower case.
    pub types: Vec<Type>,
}

/// No two types have the same Russian name in lower case.
pub open spec fn distinct_names(types: Seq<Type>) -> bool {
    forall|i: int, j: int|
        0 <= i < j < types.len() ==> text::lowercase((#[trigger] types[i]).name_ru@)
            != text::lowercase((#[trigger] types[j]).name_ru@)
}

/// The types after one is put in: in place of the one with the same Russian name in lower
/// case, or else at the end.
pub open spec fn with_type(types: Seq<Type>, ty: Type) -> Seq<Type> {
    match type_by_ru(types, text::lowercase(ty.name_ru@), 0) {
        Some(i) => types.update(i, ty),
        None => types.push(ty),
    }
}

/// How many of the types are enumerations.
pub open spec fn enum_count(types: Seq<Type>) -> nat
    decreases types.len(),
{
    if types.len() == 0 {
        0
    } else {
        enum_count(types.drop_last()) + if types.last().enum_values@.len() > 0 {
            1nat
        } else {
            0nat
        }
    }
}

impl PlatformIndex {
    /// An index without anything in it.
    pub fn new() -> (r: Self)
        ensures
            r.global_methods@ == Seq::<Method>::empty(),
            r.global_properties@ == Seq::<Property>::empty(),
            r.types@ == Seq::<Type>::empty(),
    {
        PlatformIndex { global_methods: Vec::new(), global_properties: Vec::new(), types: Vec::new() }
    }

    /// How many types are system enumerations.
    pub fn enum_types_count(&self) -> (r: usize)
        ensures
            r == enum_count(self.types@),
    {
        let mut count: usize = 0;
        let mut i: usize = 0;
        while i < self.types.len()
            invariant
                i <= self.types.len(),
                count <= i,
                count == enum_count(self.types@.take(i as int)),
            decreases self.types.len() - i,
        {
            assert(self.types@.take(i + 1).drop_last() == self.types@.take(i as int));
            if self.types[i].is_enum() {
                count += 1;
            }
            i += 1;
        }
        assert(self.types@.take(i as int) == self.types@);
        count
    }

    /// The type that a name stands for, whatever its letter case. A Russian name goes
    /// before an English one.
    pub fn find_type(&self, name: &str) -> (r: Option<&Type>)
        ensures
            match r {
                Some(t) => type_named(self.types@, name@) == Some(*t),
                None => type_named(self.types@, name@) is None,
            },
    {
        let lower = to_lower(name);
        let key = lower.as_str();
        let mut i: usize = 0;
        while i < self.types.len()
            invariant
                key@ == text::lowercase(name@),
                i <= self.types.len(),
                type_by_ru(self.types@, key@, 0) == type_by_ru(self.types@, key@, i as int),
            decreases self.types.len() - i,
        {
            if same_text(to_lower(self.types[i].name_ru.as_str()).as_str(), key) {
                return Some(&self.types[i]);
            }
            i += 1;
        }
        let mut j: usize = 0;
        while j < self.types.len()
            invariant
                key@ == text::lowercase(name@),
                type_by_ru(self.types@, key@, 0) is None,
                j <= self.types.len(),
                type_by_en(self.types@, key@, 0) == type_by_en(self.types@, key@, j as int),
            decreases self.types.len() - j,
        {
            if !self.types[j].name_en.as_str().is_empty() && same_text(
                to_lower(self.types[j].name_en.as_str()).as_str(),
                key,
            ) {
                return Some(&self.types[j]);
            }
            j += 1;
        }
        None
    }

    /// The global method that a name stands for, Russian or English, whatever its letter
    /// case.
    pub fn find_global_method(&self, name: &str) -> (r: Option<&Method>)
        ensures
            match r {
                Some(m) => method_named(self.global_methods@, name@) == Some(*m),
                None => method_named(self.global_methods@, name@) is None,
            },
    {
        let lower = to_lower(name);
        let key = lower.as_str();
        let mut i: usize = 0;
        while i < self.global_methods.len()
            invariant
                key@ == text::lowercase(name@),
                i <= self.global_methods.len(),
                method_from(self.global_methods@, key@, 0) == method_from(
                    self.global_methods@,
                    key@,
                    i as int,
                ),
            decreases self.global_methods.len() - i,
        {
            let m = &self.global_methods[i];
            if has_name(m.name_ru.as_str(), m.name_en.as_str(), key) {
                return Some(m);
            }
            i += 1;
        }
        None
    }

    /// The global property that a name stands for, Russian or English, whatever its letter
    /// case.
    pub fn find_global_property(&self, name: &str) -> (r: Option<&Property>)
        ensures
            match r {
                Some(p) => property_named(self.global_properties@, name@) == Some(*p),
                None => property_named(self.global_properties@, name@) is None,
            },
    {
        let lower = to_lower(name);
        let key = lower.as_str();
        let mut i: usize = 0;
        while i < self.global_properties.len()
            invariant
                key@ == text::lowercase(name@),
                i <= self.global_properties.len(),
                property_from(self.global_properties@, key@, 0) == property_from(
                    self.global_properties@,
                    key@,
                    i as int,
                ),
            decreases self.global_properties.len() - i,
        {
            let p = &self.global_properties[i];
            if has_name(p.name_ru.as_str(), p.name_en.as_str(), key) {
                return Some(p);
            }
            i += 1;
        }
        None
    }

    /// Put a type in: in place of the one with the same Russian name in lower case, or else
    /// as a new one.
    pub fn insert_type(&mut self, ty: Type)
        ensures
            final(self).types@ == with_type(old(self).types@, ty),
            final(self).global_methods == old(self).global_methods,
            final(self).global_properties == old(self).global_properties,
    {
        let key = to_lower(ty.name_ru.as_str());
        let mut i: usize = 0;
        while i < self.types.len()
            invariant
                *self == *old(self),
                key@ == text::lowercase(ty.name_ru@),
                i <= self.types.len(),
                type_by_ru(self.types@, key@, 0) == type_by_ru(self.types@, key@, i as int),
            decreases self.types.len() - i,
        {
            if same_text(to_lower(self.types[i].name_ru.as_str()).as_str(), key.as_str()) {
                self.types.set(i, ty);
                return;
            }
            i += 1;
        }
        self.types.push(ty);
    }

    /// Whether some type has a method of that lower-case name, which its own module can call
    /// without a prefix.
    pub fn is_type_method(&self, key: &str) -> (r: bool)
        ensures
            r == some_type_method(self.types@, key@),
    {
        let mut i: usize = 0;
        while i < self.types.len()
            invariant
                i <= self.types.len(),
                forall|k: int| 0 <= k < i ==> !some_method((#[trigger] self.types[k]).methods@, key@),
            decreases self.types.len() - i,
        {
            if holds_method(&self.types[i].methods, key) {
                assert(some_method(self.types@[i as int].methods@, key@));
                return true;
            }
            i += 1;
        }
        false
    }
}

proof fn lemma_type_by_ru(types: Seq<Type>, key: Seq<char>, i: int)
    requires
        0 <= i <= types.len(),
    ensures
        match type_by_ru(types, key, i) {
            Some(at) => i <= at < types.len() && text::lowercase(types[at].name_ru@) == key
                && forall|k: int| i <= k < at ==> text::lowercase((#[trigger] types[k]).name_ru@) != key,
            None => forall|k: int| i <= k < types.len() ==> text::lowercase((#[trigger] types[k]).name_ru@) != key,
        },
    decreases types.len() - i,
{
    if i < types.len() && text::lowercase(types[i].name_ru@) != key {
        lemma_type_by_ru(types, key, i + 1);
    }
}

proof fn lemma_first_by_ru(types: Seq<Type>, key: Seq<char>, i: int, at: int)
    requires
        0 <= i <= at < types.len(),
        text::lowercase(types[at].name_ru@) == key,
        forall|k: int| i <= k < at ==> text::lowercase((#[trigger] types[k]).name_ru@) != key,
    ensures
        type_by_ru(types, key, i) == Some(at),
    decreases at - i,
{
    if i < at {
        lemma_first_by_ru(types, key, i + 1, at);
    }
}

/// A type that was put in is found under its Russian name in any letter case, and names that are
/// distinct stay so.
pub proof fn law_inserted_type_is_found(types: Seq<Type>, ty: Type, name: Seq<char>)
    requires
        text::lowercase(name) == text::lowercase(ty.name_ru@),
    ensures
        type_named(with_type(types, ty), name) == Some(ty),
        distinct_names(types) ==> distinct_names(with_type(types, ty)),
{
    let key = text::lowercase(ty.name_ru@);
    lemma_type_by_ru(types, key, 0);
    let after = with_type(types, ty);
    match type_by_ru(types, key, 0) {
        Some(i) => {
            lemma_first_by_ru(after, key, 0, i);
        },
        None => {
            lemma_first_by_ru(after, key, 0, types.len() as int);
        },
    }
}

/// Putting a type in leaves every other Russian name as it was found before.
pub proof fn law_other_types_stay(types: Seq<Type>, ty: Type, key: Seq<char>)
    requires
        key != text::lowercase(ty.name_ru@),
    ensures
        match type_by_ru(types, key, 0) {
            Some(i) => type_by_ru(with_type(types, ty), key, 0) == Some(i) && with_type(types, ty)[i]
                == types[i],
            None => type_by_ru(with_type(types, ty), key, 0) is None,
        },
{
    let after = with_type(types, ty);
    lemma_type_by_ru(types, text::lowercase(ty.name_ru@), 0);
    lemma_type_by_ru(types, key, 0);
    lemma_type_by_ru(after, key, 0);
    match type_by_ru(types, key, 0) {
        Some(i) => {
            assert(after[i] == types[i]);
            lemma_first_by_ru(after, key, 0, i);
        },
        None => {
            if let Some(k) = type_by_ru(after, key, 0) {
                assert(after[k] == types[k]);
            }
        },
    }
}

proof fn lemma_type_by_en(types: Seq<Type>, key: Seq<char>, i: int)
    requires
        0 <= i <= types.len(),
    ensures
        match type_by_en(types, key, i) {
            Some(at) => i <= at < types.len() && types[at].name_en@.len() > 0 && text::lowercase(
                types[at].name_en@,
            ) == key && forall|k: int|
                i <= k < at ==> (#[trigger] types[k]).name_en@.len() == 0 || text::lowercase(
                    types[k].name_en@,
                ) != key,
            None => forall|k: int|
                i <= k < types.len() ==> (#[trigger] types[k]).name_en@.len() == 0 || text::lowercase(
                    types[k].name_en@,
                ) != key,
        },
    decreases types.len() - i,
{
    if i < types.len() {
        lemma_type_by_en(types, key, i + 1);
    }
}

/// A type is found by its Russian name, whatever the letter case, and the first of that name
/// comes. By its English name it is found where no Russian name is the word asked for. By a word
/// that names no type in either language nothing is found.
pub proof fn law_type_is_found_by_either_name(types: Seq<Type>, name: Seq<char>, i: int)
    requires
        0 <= i < types.len(),
    ensures
        text::lowercase(types[i].name_ru@) == text::lowercase(name) && (forall|k: int|
            0 <= k < i ==> text::lowercase((#[trigger] types[k]).name_ru@) != text::lowercase(name))
            ==> type_named(types, name) == Some(types[i]),
        types[i].name_en@.len() > 0 && text::lowercase(types[i].name_en@) == text::lowercase(name) && (
        forall|k: int|
            0 <= k < types.len() ==> text::lowercase((#[trigger] types[k]).name_ru@) != text::lowercase(
                name,
            )) && (forall|k: int|
            0 <= k < i ==> (#[trigger] types[k]).name_en@.len() == 0 || text::lowercase(
                types[k].name_en@,
            ) != text::lowercase(name)) ==> type_named(types, name) == Some(types[i]),
        type_named(types, name) is None ==> text::lowercase(types[i].name_ru@) != text::lowercase(name)
            && (types[i].name_en@.len() == 0 || text::lowercase(types[i].name_en@) != text::lowercase(
            name,
        )),
{
    let key = text::lowercase(name);
    lemma_type_by_ru(types, key, 0);
    lemma_type_by_en(types, key, 0);
}

/// The type that is found bears the name that was asked for, in one of the two languages, and
/// stands in the list.
pub proof fn law_found_type_bears_the_name(types: Seq<Type>, name: Seq<char>)
    ensures
        type_named(types, name) matches Some(t) ==> types.contains(t) && (text::lowercase(t.name_ru@)
            == text::lowercase(name) || (t.name_en@.len() > 0 && text::lowercase(t.name_en@)
            == text::lowercase(name))),
{
    let key = text::lowercase(name);
    lemma_type_by_ru(types, key, 0);
    lemma_type_by_en(types, key, 0);
}

proof fn lemma_method_from(methods: Seq<Method>, key: Seq<char>, i: int) -> (at: int)
    requires
        0 <= i <= methods.len(),
    ensures
        i <= at <= methods.len(),
        at < methods.len() ==> method_from(methods, key, i) == Some(methods[at]) && either_name(
            methods[at].name_ru@,
            methods[at].name_en@,
            key,
        ),
        at == methods.len() ==> method_from(methods, key, i) is None,
        forall|k: int|
            i <= k < at ==> !either_name((#[trigger] methods[k]).name_ru@, methods[k].name_en@, key),
    decreases methods.len() - i,
{
    if i >= methods.len() || either_name(methods[i].name_ru@, methods[i].name_en@, key) {
        i
    } else {
        lemma_method_from(methods, key, i + 1)
    }
}

/// A global method is found by its Russian or its English name, whatever the letter case: the
/// first of the list that bears the name in either language comes, and by a word that is no name
/// of any none comes.
pub proof fn law_method_is_found_by_either_name(methods: Seq<Method>, name: Seq<char>)
    ensures
        forall|i: int|
            0 <= i < methods.len() && (text::lowercase((#[trigger] methods[i]).name_ru@)
                == text::lowercase(name) || (methods[i].name_en@.len() > 0 && text::lowercase(
                methods[i].name_en@,
            ) == text::lowercase(name))) && (forall|k: int|
                0 <= k < i ==> text::lowercase((#[trigger] methods[k]).name_ru@) != text::lowercase(name)
                    && (methods[k].name_en@.len() == 0 || text::lowercase(methods[k].name_en@)
                    != text::lowercase(name))) ==> method_named(methods, name) == Some(methods[i]),
        (forall|k: int|
            0 <= k < methods.len() ==> text::lowercase((#[trigger] methods[k]).name_ru@)
                != text::lowercase(name) && (methods[k].name_en@.len() == 0 || text::lowercase(
                methods[k].name_en@,
            ) != text::lowercase(name))) ==> method_named(methods, name) is None,
{
    let at = lemma_method_from(methods, text::lowercase(name), 0);
    assert forall|i: int|
        0 <= i < methods.len() && (text::lowercase((#[trigger] methods[i]).name_ru@)
            == text::lowercase(name) || (methods[i].name_en@.len() > 0 && text::lowercase(
            methods[i].name_en@,
        ) == text::lowercase(name))) && (forall|k: int|
            0 <= k < i ==> text::lowercase((#[trigger] methods[k]).name_ru@) != text::lowercase(name) && (
            methods[k].name_en@.len() == 0 || text::lowercase(methods[k].name_en@) != text::lowercase(
                name,
            ))) implies method_named(methods, name) == Some(methods[i]) by {
        if at < i {
            assert(methods[at].name_ru@ == methods[at].name_ru@);
        }
    }
}

proof fn lemma_property_from(properties: Seq<Property>, key: Seq<char>, i: int) -> (at: int)
    requires
        0 <= i <= properties.len(),
    ensures
        i <= at <= properties.len(),
        at < properties.len() ==> property_from(properties, key, i) == Some(properties[at])
            && either_name(properties[at].name_ru@, properties[at].name_en@, key),
        at == properties.len() ==> property_from(properties, key, i) is None,
        forall|k: int|
            i <= k < at ==> !either_name(
                (#[trigger] properties[k]).name_ru@,
                properties[k].name_en@,
                key,
            ),
    decreases properties.len() - i,
{
    if i >= properties.len() || either_name(properties[i].name_ru@, properties[i].name_en@, key) {
        i
    } else {
        lemma_property_from(properties, key, i + 1)
    }
}

/// A global property is found as a global method is: the first of the list that bears the name
/// in either language, whatever the letter case, and none by any other word.
pub proof fn law_property_is_found_by_either_name(properties: Seq<Property>, name: Seq<char>)
    ensures
        forall|i: int|
            0 <= i < properties.len() && (text::lowercase((#[trigger] properties[i]).name_ru@)
                == text::lowercase(name) || (properties[i].name_en@.len() > 0 && text::lowercase(
                properties[i].name_en@,
            ) == text::lowercase(name))) && (forall|k: int|
                0 <= k < i ==> text::lowercase((#[trigger] properties[k]).name_ru@) != text::lowercase(
                    name,
                ) && (properties[k].name_en@.len() == 0 || text::lowercase(properties[k].name_en@)
                    != text::lowercase(name))) ==> property_named(properties, name) == Some(properties[i]),
        (forall|k: int|
            0 <= k < properties.len() ==> text::lowercase((#[trigger] properties[k]).name_ru@)
                != text::lowercase(name) && (properties[k].name_en@.len() == 0 || text::lowercase(
                properties[k].name_en@,
            ) != text::lowercase(name))) ==> property_named(properties, name) is None,
{
    let at = lemma_property_from(properties, text::lowercase(name), 0);
    assert forall|i: int|
        0 <= i < properties.len() && (text::lowercase((#[trigger] properties[i]).name_ru@)
            == text::lowercase(name) || (properties[i].name_en@.len() > 0 && text::lowercase(
            properties[i].name_en@,
        ) == text::lowercase(name))) && (forall|k: int|
            0 <= k < i ==> text::lowercase((#[trigger] properties[k]).name_ru@) != text::lowercase(name)
                && (properties[k].name_en@.len() == 0 || text::lowercase(properties[k].name_en@)
                != text::lowercase(name))) implies property_named(properties, name) == Some(
        properties[i],
    ) by {
        if at < i {
            assert(properties[at].name_ru@ == properties[at].name_ru@);
        }
    }
}

pub proof fn lemma_method_at(methods: Seq<Method>, key: Seq<char>, i: int)
    requires
        0 <= i <= methods.len(),
    ensures
        match method_at(methods, key, i) {
            Some(at) => i <= at < methods.len() && named_as(
                methods[at].name_ru@,
                methods[at].name_en@,
                key,
            ) && forall|k: int|
                i <= k < at ==> !named_as((#[trigger] methods[k]).name_ru@, methods[k].name_en@, key),
            None => forall|k: int|
                i <= k < methods.len() ==> !named_as(
                    (#[trigger] methods[k]).name_ru@,
                    methods[k].name_en@,
                    key,
                ),
        },
    decreases methods.len() - i,
{
    if i < methods.len() {
        lemma_method_at(methods, key, i + 1);
    }
}

pub proof fn lemma_property_at(properties: Seq<Property>, key: Seq<char>, i: int)
    requires
        0 <= i <= properties.len(),
    ensures
        match property_at(properties, key, i) {
            Some(at) => i <= at < properties.len() && named_as(
                properties[at].name_ru@,
                properties[at].name_en@,
                key,
            ) && forall|k: int|
                i <= k < at ==> !named_as(
                    (#[trigger] properties[k]).name_ru@,
                    properties[k].name_en@,
                    key,
                ),
            None => forall|k: int|
                i <= k < properties.len() ==> !named_as(
                    (#[trigger] properties[k]).name_ru@,
                    properties[k].name_en@,
                    key,
                ),
        },
    decreases properties.len() - i,
{
    if i < properties.len() {
        lemma_property_at(properties, key, i + 1);
    }
}

pub proof fn lemma_value_at(values: Seq<EnumValue>, key: Seq<char>, i: int)
    requires
        0 <= i <= values.len(),
    ensures
        match value_at(values, key, i) {
            Some(at) => i <= at < values.len() && named_as(
                values[at].name_ru@,
                values[at].name_en@,
                key,
            ) && forall|k: int|
                i <= k < at ==> !named_as((#[trigger] values[k]).name_ru@, values[k].name_en@, key),
            None => forall|k: int|
                i <= k < values.len() ==> !named_as(
                    (#[trigger] values[k]).name_ru@,
                    values[k].name_en@,
                    key,
                ),
        },
    decreases values.len() - i,
{
    if i < values.len() {
        lemma_value_at(values, key, i + 1);
    }
}

/// A type has a member exactly where one of its methods or one of its properties bears the name
/// in either language.
pub proof fn law_members_are_methods_and_properties(ty: Type, word: Seq<char>)
    ensures
        has_member(ty, text::lowercase(word)) <==> {
            ||| exists|i: int|
                0 <= i < ty.methods@.len() && (text::lowercase((#[trigger] ty.methods@[i]).name_ru@)
                    == text::lowercase(word) || text::lowercase(ty.methods@[i].name_en@)
                    == text::lowercase(word))
            ||| exists|j: int|
                0 <= j < ty.properties@.len() && (text::lowercase(
                    (#[trigger] ty.properties@[j]).name_ru@,
                ) == text::lowercase(word) || text::lowercase(ty.properties@[j].name_en@)
                    == text::lowercase(word))
        },
{
    let key = text::lowercase(word);
    lemma_method_at(ty.methods@, key, 0);
    lemma_property_at(ty.properties@, key, 0);
}

/// The number of enumerations is the number of types that have values.
pub proof fn law_enumerations_are_types_with_values(types: Seq<Type>)
    ensures
        enum_count(types) == types.filter(|t: Type| t.enum_values@.len() > 0).len(),
    decreases types.len(),
{
    reveal(Seq::filter);
    if types.len() > 0 {
        law_enumerations_are_types_with_values(types.drop_last());
    }
}

/// The names of the methods, of the properties, of the values and of the types of a list are
/// their Russian names, each in its place.
pub proof fn law_names_are_russian_names(
    methods: Seq<Method>,
    properties: Seq<Property>,
    values: Seq<EnumValue>,
    types: Seq<Type>,
)
    ensures
        method_names(methods).len() == methods.len(),
        forall|i: int| 0 <= i < methods.len() ==> #[trigger] method_names(methods)[i] == methods[i].name_ru@,
        property_names(properties).len() == properties.len(),
        forall|i: int|
            0 <= i < properties.len() ==> #[trigger] property_names(properties)[i]
                == properties[i].name_ru@,
        value_names(values).len() == values.len(),
        forall|i: int| 0 <= i < values.len() ==> #[trigger] value_names(values)[i] == values[i].name_ru@,
        names_of_types(types).len() == types.len(),
        forall|i: int| 0 <= i < types.len() ==> #[trigger] names_of_types(types)[i] == types[i].name_ru@,
{
}

} // verus!
