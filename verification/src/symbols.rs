//! Names of a configuration that a module cannot show: other modules, objects and their
//! fields.
use crate::text;
use crate::text::{same_text, to_lower};
use vstd::prelude::*;

verus! {

/// A field of an object of the configuration.
#[derive(Debug, Clone)]
pub struct ObjectField {
    pub name: String,
    /// How the field is indexed, where it is.
    pub indexing: Option<String>,
}

impl ObjectField {
    /// Whether the platform keeps an index by the field.
    pub fn is_indexed(&self) -> (r: bool)
        ensures
            r == (self.indexing is Some),
    {
        self.indexing.is_some()
    }
}

/// The fields of an object of the configuration.
#[derive(Debug, Clone)]
pub struct ObjectSchema {
    pub attributes: Vec<ObjectField>,
    pub dimensions: Vec<ObjectField>,
    pub resources: Vec<ObjectField>,
    /// `Balance` or `Turnovers`, of accumulation registers.
    pub register_type: Option<String>,
}

impl Default for ObjectSchema {
    fn default() -> (r: ObjectSchema)
        ensures
            r.attributes@.len() == 0,
            r.dimensions@.len() == 0,
            r.resources@.len() == 0,
            r.register_type is None,
    {
        ObjectSchema {
            attributes: Vec::new(),
            dimensions: Vec::new(),
            resources: Vec::new(),
            register_type: None,
        }
    }
}

/// The contents of an [`ObjectField`].
#[verifier::ext_equal]
pub struct FieldInfo {
    pub name: Seq<char>,
    pub indexing: Option<Seq<char>>,
}

impl View for ObjectField {
    type V = FieldInfo;

    open spec fn view(&self) -> FieldInfo {
        FieldInfo { name: self.name@, indexing: text::opt_text(self.indexing) }
    }
}

/// The contents of an [`ObjectSchema`].
#[verifier::ext_equal]
pub struct SchemaView {
    pub attributes: Seq<FieldInfo>,
    pub dimensions: Seq<FieldInfo>,
    pub resources: Seq<FieldInfo>,
    pub register_type: Option<Seq<char>>,
}

/// The contents of a list of fields.
pub open spec fn field_infos(v: Seq<ObjectField>) -> Seq<FieldInfo> {
    v.map_values(|f: ObjectField| f@)
}

impl View for ObjectSchema {
    type V = SchemaView;

    open spec fn view(&self) -> SchemaView {
        SchemaView {
            attributes: field_infos(self.attributes@),
            dimensions: field_infos(self.dimensions@),
            resources: field_infos(self.resources@),
            register_type: text::opt_text(self.register_type),
        }
    }
}

/// The first field, from `i` on, with a lower-case name.
pub open spec fn field_from(fields: Seq<FieldInfo>, key: Seq<char>, i: int) -> Option<FieldInfo>
    decreases fields.len() - i,
{
    if i < 0 || i >= fields.len() {
        None
    } else if text::lowercase(fields[i].name) == key {
        Some(fields[i])
    } else {
        field_from(fields, key, i + 1)
    }
}

/// Some field of a list has a lower-case name.
pub open spec fn some_field(fields: Seq<FieldInfo>, key: Seq<char>) -> bool {
    field_from(fields, key, 0) is Some
}

impl SchemaView {
    /// The object is a register of balances.
    pub open spec fn balance(self) -> bool {
        self.register_type == Some("Balance"@)
    }

    /// The field with a lower-case name: an attribute, or else a dimension, or else a
    /// resource.
    pub open spec fn field(self, key: Seq<char>) -> Option<FieldInfo> {
        match field_from(self.attributes, key, 0) {
            Some(f) => Some(f),
            None => match field_from(self.dimensions, key, 0) {
                Some(f) => Some(f),
                None => field_from(self.resources, key, 0),
            },
        }
    }
}

/// The first field of a list with a lower-case name.
pub fn find_field<'a>(fields: &'a Vec<ObjectField>, key: &str) -> (r: Option<&'a ObjectField>)
    ensures
        match r {
            Some(f) => field_from(field_infos(fields@), key@, 0) == Some(f@),
            None => field_from(field_infos(fields@), key@, 0) is None,
        },
{
    let mut i: usize = 0;
    while i < fields.len()
        invariant
            i <= fields.len(),
            field_from(field_infos(fields@), key@, 0) == field_from(
                field_infos(fields@),
                key@,
                i as int,
            ),
        decreases fields.len() - i,
    {
        if same_text(to_lower(fields[i].name.as_str()).as_str(), key) {
            return Some(&fields[i]);
        }
        i += 1;
    }
    None
}

impl ObjectSchema {
    /// Whether the object is a register of balances.
    pub fn is_balance_register(&self) -> (r: bool)
        ensures
            r == self@.balance(),
    {
        match &self.register_type {
            Some(t) => same_text(t.as_str(), "Balance"),
            None => false,
        }
    }

    /// The field with a lower-case name: an attribute, or else a dimension, or else a
    /// resource.
    pub fn field(&self, name_lower: &str) -> (r: Option<&ObjectField>)
        ensures
            match r {
                Some(f) => self@.field(name_lower@) == Some(f@),
                None => self@.field(name_lower@) is None,
            },
    {
        if let Some(f) = find_field(&self.attributes, name_lower) {
            return Some(f);
        }
        if let Some(f) = find_field(&self.dimensions, name_lower) {
            return Some(f);
        }
        find_field(&self.resources, name_lower)
    }
}

/// All answers of a source of names. Names are asked for in lower case; `None` means that
/// the source does not know, which is not the same as "there is none".
pub struct Answers {
    /// A procedure of a global common module, callable without a prefix.
    pub global_export: spec_fn(Seq<char>) -> bool,
    /// Some module of the configuration declares the name.
    pub declared: spec_fn(Seq<char>) -> bool,
    /// The exported names of the module of the object that owns the module at a path.
    pub owner_exports: spec_fn(Seq<char>) -> Option<Seq<Seq<char>>>,
    /// Whether an object stands in a collection.
    pub object: spec_fn(Seq<char>, Seq<char>) -> Option<bool>,
    /// The names of the objects of a collection.
    pub names: spec_fn(Seq<char>) -> Option<Seq<Seq<char>>>,
    /// The exported variables of the application module, in lower case.
    pub variables: Option<Seq<Seq<char>>>,
    /// The fields of an object of a collection.
    pub schema: spec_fn(Seq<char>, Seq<char>) -> Option<SchemaView>,
}

/// The answers of a source that knows nothing.
pub open spec fn nothing_known() -> Answers {
    Answers {
        global_export: |n: Seq<char>| false,
        declared: |n: Seq<char>| false,
        owner_exports: |p: Seq<char>| None,
        object: |c: Seq<char>, n: Seq<char>| None,
        names: |c: Seq<char>| None,
        variables: None,
        schema: |c: Seq<char>, n: Seq<char>| None,
    }
}

/// The contents of an optional list of strings.
pub open spec fn opt_texts(o: Option<Vec<String>>) -> Option<Seq<Seq<char>>> {
    match o {
        Some(v) => Some(text::texts(v@)),
        None => None,
    }
}

/// A source of names of a configuration.
///
/// While a module is checked, a source answers the same question in the same way: `knows`
/// stands for its answers.
pub trait SymbolSource {
    /// The answers of the source. Unless a source says otherwise, it knows nothing.
    open spec fn knows(&self) -> Answers {
        nothing_known()
    }

    /// Whether a global common module exports the name.
    fn is_global_export(&self, name_lower: &str) -> (r: bool)
        ensures
            r == (self.knows().global_export)(name_lower@),
    ;

    /// Whether some module of the configuration declares the name.
    fn method_exists(&self, name_lower: &str) -> (r: bool)
        ensures
            r == (self.knows().declared)(name_lower@),
    ;

    /// The exported names, in lower case, of the module of the object that owns the module
    /// at a path.
    fn owner_exports(&self, path: &str) -> (r: Option<Vec<String>>)
        ensures
            opt_texts(r) == (self.knows().owner_exports)(path@),
    ;

    /// Whether an object with a lower-case name stands in a collection.
    fn object_exists(&self, collection: &str, name_lower: &str) -> (r: Option<bool>)
        ensures
            r == (self.knows().object)(collection@, name_lower@),
    ;

    /// The names of the objects of a collection.
    fn collection_names(&self, collection: &str) -> (r: Option<Vec<String>>)
        ensures
            opt_texts(r) == (self.knows().names)(collection@),
    ;

    /// The exported variables of the application module, in lower case.
    fn global_variables(&self) -> (r: Option<Vec<String>>)
        ensures
            opt_texts(r) == self.knows().variables,
    ;

    /// The fields of an object of a collection.
    fn object_schema(&self, collection: &str, name_lower: &str) -> (r: Option<ObjectSchema>)
        ensures
            match r {
                Some(s) => (self.knows().schema)(collection@, name_lower@) == Some(s@),
                None => (self.knows().schema)(collection@, name_lower@) is None,
            },
    ;

    /// Whether the source works. One that asks a service may stop working at any time, and then
    /// gives empty answers; nothing is said of when. Unless a source says otherwise, it works.
    fn is_healthy(&self) -> (r: bool)
        default_ensures
            r,
    {
        true
    }

    /// What the source is, in words for people. The words are those of the source.
    fn describe(&self) -> (r: String);
}

/// A source that knows nothing.
pub struct NoSymbols {}

impl SymbolSource for NoSymbols {
    open spec fn knows(&self) -> Answers {
        nothing_known()
    }

    fn is_global_export(&self, name_lower: &str) -> (r: bool) {
        false
    }

    fn method_exists(&self, name_lower: &str) -> (r: bool) {
        false
    }

    fn owner_exports(&self, path: &str) -> (r: Option<Vec<String>>) {
        None
    }

    fn object_exists(&self, collection: &str, name_lower: &str) -> (r: Option<bool>) {
        None
    }

    fn collection_names(&self, collection: &str) -> (r: Option<Vec<String>>) {
        None
    }

    fn global_variables(&self) -> (r: Option<Vec<String>>) {
        None
    }

    fn object_schema(&self, collection: &str, name_lower: &str) -> (r: Option<ObjectSchema>) {
        None
    }

    fn describe(&self) -> (r: String)
        ensures
            r@ == "none"@,
    {
        "none".to_string()
    }
}

/// The answers of an optional source.
pub open spec fn answers_of<S: SymbolSource>(symbols: Option<&S>) -> Option<Answers> {
    match symbols {
        Some(s) => Some(s.knows()),
        None => None,
    }
}

proof fn lemma_field_from(fields: Seq<FieldInfo>, key: Seq<char>, i: int) -> (at: int)
    requires
        0 <= i <= fields.len(),
    ensures
        i <= at <= fields.len(),
        at < fields.len() ==> field_from(fields, key, i) == Some(fields[at]) && text::lowercase(
            fields[at].name,
        ) == key,
        at == fields.len() ==> field_from(fields, key, i) is None,
        forall|k: int| i <= k < at ==> text::lowercase((#[trigger] fields[k]).name) != key,
    decreases fields.len() - i,
{
    if i >= fields.len() || text::lowercase(fields[i].name) == key {
        i
    } else {
        lemma_field_from(fields, key, i + 1)
    }
}

/// A list has a field exactly where one of its fields bears the name, whatever the letter case.
pub proof fn law_some_field_bears_the_name(fields: Seq<FieldInfo>, key: Seq<char>)
    ensures
        some_field(fields, key) <==> exists|i: int|
            0 <= i < fields.len() && text::lowercase((#[trigger] fields[i]).name) == key,
{
    let at = lemma_field_from(fields, key, 0);
}

/// A field of an object is looked up among the attributes, then among the dimensions, then among
/// the resources; in each the first of the name counts, and an object that has the name nowhere
/// has no such field.
pub proof fn law_field_is_looked_up_in_turn(s: SchemaView, key: Seq<char>)
    ensures
        forall|i: int|
            0 <= i < s.attributes.len() && text::lowercase((#[trigger] s.attributes[i]).name) == key && (
            forall|k: int| 0 <= k < i ==> text::lowercase((#[trigger] s.attributes[k]).name) != key)
                ==> s.field(key) == Some(s.attributes[i]),
        (forall|k: int|
            0 <= k < s.attributes.len() ==> text::lowercase((#[trigger] s.attributes[k]).name) != key) ==> {
            &&& forall|i: int|
                0 <= i < s.dimensions.len() && text::lowercase((#[trigger] s.dimensions[i]).name) == key
                    && (forall|k: int|
                    0 <= k < i ==> text::lowercase((#[trigger] s.dimensions[k]).name) != key) ==> s.field(key)
                    == Some(s.dimensions[i])
            &&& (forall|k: int|
                0 <= k < s.dimensions.len() ==> text::lowercase((#[trigger] s.dimensions[k]).name) != key)
                ==> {
                &&& forall|i: int|
                    0 <= i < s.resources.len() && text::lowercase((#[trigger] s.resources[i]).name) == key
                        && (forall|k: int|
                        0 <= k < i ==> text::lowercase((#[trigger] s.resources[k]).name) != key) ==> s.field(
                        key,
                    ) == Some(s.resources[i])
                &&& (forall|k: int|
                    0 <= k < s.resources.len() ==> text::lowercase((#[trigger] s.resources[k]).name) != key)
                    ==> s.field(key) is None
            }
        },
{
    let a = lemma_field_from(s.attributes, key, 0);
    let d = lemma_field_from(s.dimensions, key, 0);
    let r = lemma_field_from(s.resources, key, 0);
    assert forall|i: int|
        0 <= i < s.attributes.len() && text::lowercase((#[trigger] s.attributes[i]).name) == key && (
        forall|k: int|
            0 <= k < i ==> text::lowercase((#[trigger] s.attributes[k]).name) != key) implies s.field(key)
        == Some(s.attributes[i]) by {
        if a < i {
            assert(text::lowercase(s.attributes[a].name) == key);
        }
    }
    assert forall|i: int|
        a == s.attributes.len() && 0 <= i < s.dimensions.len() && text::lowercase(
            (#[trigger] s.dimensions[i]).name,
        ) == key && (forall|k: int|
            0 <= k < i ==> text::lowercase((#[trigger] s.dimensions[k]).name) != key) implies s.field(key)
        == Some(s.dimensions[i]) by {
        if d < i {
            assert(text::lowercase(s.dimensions[d].name) == key);
        }
    }
    assert forall|i: int|
        a == s.attributes.len() && d == s.dimensions.len() && 0 <= i < s.resources.len()
            && text::lowercase((#[trigger] s.resources[i]).name) == key && (forall|k: int|
            0 <= k < i ==> text::lowercase((#[trigger] s.resources[k]).name) != key) implies s.field(key)
        == Some(s.resources[i]) by {
        if r < i {
            assert(text::lowercase(s.resources[r].name) == key);
        }
    }
}

} // verus!
