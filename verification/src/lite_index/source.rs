//! An index as a source of names.
use super::schema;
use super::schema::{is_copy, MergedField, ObjectFields, ObjectFieldsView};
use super::tables;
use super::tables::{LiteIndex, LiteIndexView, ObjectRowView};
use crate::symbols;
use crate::symbols::{Answers, FieldInfo, ObjectField, ObjectSchema, SchemaView, SymbolSource};
use crate::text;
use crate::text::{copy_opt, same_text};
use vstd::prelude::*;

verus! {

/// The fields of a kind among the first `n`.
pub open spec fn fields_of_kind(fields: Seq<MergedField>, kind: Seq<char>, n: int) -> Seq<FieldInfo>
    decreases n,
{
    if n <= 0 {
        seq![]
    } else if fields[n - 1].kind == kind {
        fields_of_kind(fields, kind, n - 1).push(
            FieldInfo { name: fields[n - 1].name, indexing: fields[n - 1].indexing },
        )
    } else {
        fields_of_kind(fields, kind, n - 1)
    }
}

/// The fields of an object, each kind by itself.
pub open spec fn schema_view(o: ObjectFieldsView) -> SchemaView {
    SchemaView {
        attributes: fields_of_kind(o.fields, "attribute"@, o.fields.len() as int),
        dimensions: fields_of_kind(o.fields, "dimension"@, o.fields.len() as int),
        resources: fields_of_kind(o.fields, "resource"@, o.fields.len() as int),
        register_type: o.register_type,
    }
}

fn pick_fields(o: &ObjectFields, kind: &str) -> (r: Vec<ObjectField>)
    ensures
        symbols::field_infos(r@) == fields_of_kind(o@.fields, kind@, o@.fields.len() as int),
{
    let ghost all = o@.fields;
    let mut out: Vec<ObjectField> = Vec::new();
    assert(symbols::field_infos(out@) =~= seq![]);
    for i in 0..o.fields.len()
        invariant
            all == schema::merged_fields(o.fields@),
            symbols::field_infos(out@) == fields_of_kind(all, kind@, i as int),
    {
        assert(all[i as int] == schema::merged_field(o.fields[i as int]));
        if same_text(o.fields[i].1.as_str(), kind) {
            let one = ObjectField {
                name: o.fields[i].0.as_str().to_string(),
                indexing: copy_opt(&o.fields[i].2),
            };
            let ghost before = out@;
            out.push(one);
            assert(symbols::field_infos(out@) =~= symbols::field_infos(before).push(one@));
        }
    }
    out
}

/// The fields of an object, each kind by itself.
pub fn schema_of(o: &ObjectFields) -> (r: ObjectSchema)
    ensures
        r@ == schema_view(o@),
{
    ObjectSchema {
        attributes: pick_fields(o, "attribute"),
        dimensions: pick_fields(o, "dimension"),
        resources: pick_fields(o, "resource"),
        register_type: copy_opt(&o.register_type),
    }
}

/// The names of the objects of a class among the first `n`.
pub open spec fn names_in_class(objects: Seq<ObjectRowView>, collection: Seq<char>, n: int) -> Seq<
    Seq<char>,
>
    decreases n,
{
    if n <= 0 {
        seq![]
    } else if objects[n - 1].collection == collection {
        names_in_class(objects, collection, n - 1).push(objects[n - 1].name)
    } else {
        names_in_class(objects, collection, n - 1)
    }
}

/// Some object is of a class and has a name in lower case.
pub open spec fn has_copy(
    objects: Seq<ObjectRowView>,
    collection: Seq<char>,
    name_lower: Seq<char>,
) -> bool {
    exists|i: int| 0 <= i < objects.len() && schema::is_copy(#[trigger] objects[i], collection, name_lower)
}

/// The answers that an index gives.
pub open spec fn index_answers(ix: LiteIndexView) -> Answers {
    Answers {
        global_export: |n: Seq<char>| ix.is_global_export(n),
        declared: |n: Seq<char>| ix.method_exists(n),
        owner_exports: |p: Seq<char>| Some(ix.owner_exports(p)),
        object: |c: Seq<char>, n: Seq<char>|
            match ix.objects {
                Some(objects) => Some(has_copy(objects, c, n)),
                None => None,
            },
        names: |c: Seq<char>|
            match ix.objects {
                Some(objects) => Some(names_in_class(objects, c, objects.len() as int)),
                None => None,
            },
        variables: match ix.global_vars {
            Some(vars) => Some(vars.map_values(|v: tables::VarRowView| v.name_lower)),
            None => None,
        },
        schema: |c: Seq<char>, n: Seq<char>|
            match ix.object_schema(c, n) {
                Some(o) => Some(schema_view(o)),
                None => None,
            },
    }
}

impl SymbolSource for LiteIndex {
    open spec fn knows(&self) -> Answers {
        index_answers(self@)
    }

    fn is_global_export(&self, name_lower: &str) -> (r: bool) {
        LiteIndex::is_global_export(self, name_lower)
    }

    fn method_exists(&self, name_lower: &str) -> (r: bool) {
        LiteIndex::method_exists(self, name_lower)
    }

    fn owner_exports(&self, path: &str) -> (r: Option<Vec<String>>) {
        Some(LiteIndex::owner_exports(self, path))
    }

    fn object_exists(&self, collection: &str, name_lower: &str) -> (r: Option<bool>) {
        match &self.objects {
            None => None,
            Some(objects) => {
                let ghost rows = self@.objects->0;
                for i in 0..objects.len()
                    invariant
                        self@.objects == Some(rows),
                        rows == tables::object_rows(objects@),
                        forall|k: int|
                            0 <= k < i ==> !schema::is_copy(
                                #[trigger] rows[k],
                                collection@,
                                name_lower@,
                            ),
                {
                    assert(rows[i as int] == objects[i as int]@);
                    if same_text(objects[i].collection.as_str(), collection) && same_text(
                        objects[i].name_lower.as_str(),
                        name_lower,
                    ) {
                        assert(schema::is_copy(rows[i as int], collection@, name_lower@));
                        return Some(true);
                    }
                }
                Some(false)
            },
        }
    }

    fn collection_names(&self, collection: &str) -> (r: Option<Vec<String>>) {
        match &self.objects {
            None => None,
            Some(objects) => {
                let ghost rows = self@.objects->0;
                let mut names: Vec<String> = Vec::new();
                assert(text::texts(names@) =~= seq![]);
                for i in 0..objects.len()
                    invariant
                        rows == tables::object_rows(objects@),
                        text::texts(names@) == names_in_class(rows, collection@, i as int),
                {
                    assert(rows[i as int] == objects[i as int]@);
                    if same_text(objects[i].collection.as_str(), collection) {
                        let name = objects[i].name.as_str().to_string();
                        proof {
                            text::lemma_texts_push(names@, name);
                        }
                        names.push(name);
                    }
                }
                Some(names)
            },
        }
    }

    fn global_variables(&self) -> (r: Option<Vec<String>>) {
        match &self.global_vars {
            None => None,
            Some(vars) => {
                let ghost rows = self@.global_vars->0;
                let mut names: Vec<String> = Vec::new();
                for i in 0..vars.len()
                    invariant
                        rows == tables::var_rows(vars@),
                        names.len() == i,
                        forall|k: int| 0 <= k < i ==> (#[trigger] names[k])@ == rows[k].name_lower,
                {
                    assert(rows[i as int] == vars[i as int]@);
                    names.push(vars[i].name_lower.as_str().to_string());
                }
                assert(text::texts(names@) =~= rows.map_values(
                    |v: tables::VarRowView| v.name_lower,
                ));
                Some(names)
            },
        }
    }

    fn object_schema(&self, collection: &str, name_lower: &str) -> (r: Option<ObjectSchema>) {
        match LiteIndex::object_schema(self, collection, name_lower) {
            Some(o) => Some(schema_of(&o)),
            None => None,
        }
    }

    fn describe(&self) -> (r: String)
        ensures
            r@ == "lite-index"@,
    {
        "lite-index".to_string()
    }
}

/// An index without a table of objects answers no question about objects, and says nowhere that
/// one is missing.
pub proof fn law_old_index_denies_no_object(
    ix: LiteIndexView,
    collection: Seq<char>,
    name_lower: Seq<char>,
)
    requires
        ix.objects is None,
    ensures
        (index_answers(ix).object)(collection, name_lower) is None,
        (index_answers(ix).names)(collection) is None,
        (index_answers(ix).schema)(collection, name_lower) is None,
{
}

proof fn lemma_fields_of_kind(fields: Seq<MergedField>, kind: Seq<char>, n: int, f: FieldInfo)
    requires
        0 <= n <= fields.len(),
    ensures
        fields_of_kind(fields, kind, n).contains(f) <==> exists|i: int|
            0 <= i < n && (#[trigger] fields[i]).kind == kind && fields[i].name == f.name
                && fields[i].indexing == f.indexing,
    decreases n,
{
    if n > 0 {
        lemma_fields_of_kind(fields, kind, n - 1, f);
        let before = fields_of_kind(fields, kind, n - 1);
        let all = fields_of_kind(fields, kind, n);
        if before.contains(f) {
            let k = choose|k: int| 0 <= k < before.len() && before[k] == f;
            assert(all[k] == f);
        }
        if fields[n - 1].kind == kind {
            assert(all[before.len() as int] == (FieldInfo {
                name: fields[n - 1].name,
                indexing: fields[n - 1].indexing,
            }));
        }
        if all.contains(f) {
            let k = choose|k: int| 0 <= k < all.len() && all[k] == f;
            if k < before.len() {
                assert(before[k] == f);
            }
        }
    }
}

/// The fields of an object that the index holds are told by their kinds: each one stands among the
/// attributes, the dimensions or the resources as its kind says, with its name and its index, and
/// nothing else stands there.
pub proof fn law_fields_are_told_by_their_kinds(o: ObjectFieldsView, f: FieldInfo)
    ensures
        schema_view(o).attributes.contains(f) <==> exists|i: int|
            0 <= i < o.fields.len() && (#[trigger] o.fields[i]).kind == "attribute"@ && o.fields[i].name
                == f.name && o.fields[i].indexing == f.indexing,
        schema_view(o).dimensions.contains(f) <==> exists|i: int|
            0 <= i < o.fields.len() && (#[trigger] o.fields[i]).kind == "dimension"@ && o.fields[i].name
                == f.name && o.fields[i].indexing == f.indexing,
        schema_view(o).resources.contains(f) <==> exists|i: int|
            0 <= i < o.fields.len() && (#[trigger] o.fields[i]).kind == "resource"@ && o.fields[i].name
                == f.name && o.fields[i].indexing == f.indexing,
        schema_view(o).register_type == o.register_type,
{
    lemma_fields_of_kind(o.fields, "attribute"@, o.fields.len() as int, f);
    lemma_fields_of_kind(o.fields, "dimension"@, o.fields.len() as int, f);
    lemma_fields_of_kind(o.fields, "resource"@, o.fields.len() as int, f);
}

proof fn lemma_names_in_class(objects: Seq<ObjectRowView>, collection: Seq<char>, n: int, name: Seq<char>)
    requires
        0 <= n <= objects.len(),
    ensures
        names_in_class(objects, collection, n).contains(name) <==> exists|i: int|
            0 <= i < n && (#[trigger] objects[i]).collection == collection && objects[i].name == name,
    decreases n,
{
    if n > 0 {
        lemma_names_in_class(objects, collection, n - 1, name);
        let before = names_in_class(objects, collection, n - 1);
        let all = names_in_class(objects, collection, n);
        if before.contains(name) {
            let k = choose|k: int| 0 <= k < before.len() && before[k] == name;
            assert(all[k] == name);
        }
        if objects[n - 1].collection == collection {
            assert(all[before.len() as int] == objects[n - 1].name);
        }
        if all.contains(name) {
            let k = choose|k: int| 0 <= k < all.len() && all[k] == name;
            if k < before.len() {
                assert(before[k] == name);
            }
        }
    }
}

/// What the index answers on objects. An object exists exactly where a row of the collection has
/// the name, whatever its letter case; the names of a collection are those of its rows, as they are
/// written; a variable of the application is one of the rows of variables.
pub proof fn law_index_answers_from_its_rows(
    ix: LiteIndexView,
    objects: Seq<ObjectRowView>,
    vars: Seq<tables::VarRowView>,
    collection: Seq<char>,
    name: Seq<char>,
)
    requires
        ix.objects == Some(objects),
        ix.global_vars == Some(vars),
    ensures
        (index_answers(ix).object)(collection, name) is Some,
        (index_answers(ix).object)(collection, name) == Some(true) <==> exists|i: int|
            0 <= i < objects.len() && (#[trigger] objects[i]).collection == collection
                && objects[i].name_lower == name,
        (index_answers(ix).names)(collection) matches Some(names) && (names.contains(name) <==> exists|i: int|
            0 <= i < objects.len() && (#[trigger] objects[i]).collection == collection && objects[i].name
                == name),
        index_answers(ix).variables matches Some(names) && (names.contains(name) <==> exists|i: int|
            0 <= i < vars.len() && (#[trigger] vars[i]).name_lower == name),
{
    lemma_names_in_class(objects, collection, objects.len() as int, name);
    if exists|i: int|
        0 <= i < objects.len() && (#[trigger] objects[i]).collection == collection && objects[i].name_lower
            == name {
        let i = choose|i: int|
            0 <= i < objects.len() && (#[trigger] objects[i]).collection == collection
                && objects[i].name_lower == name;
        assert(schema::is_copy(objects[i], collection, name));
    }
    let names = vars.map_values(|v: tables::VarRowView| v.name_lower);
    if names.contains(name) {
        let k = choose|k: int| 0 <= k < names.len() && names[k] == name;
        assert(vars[k].name_lower == name);
    }
    if exists|i: int| 0 <= i < vars.len() && (#[trigger] vars[i]).name_lower == name {
        let i = choose|i: int| 0 <= i < vars.len() && (#[trigger] vars[i]).name_lower == name;
        assert(names[i] == name);
    }
}

/// What is not known is not denied: an index without a table of variables says so, and does not
/// answer that there are none.
pub proof fn law_old_index_denies_no_variable(ix: LiteIndexView)
    ensures
        index_answers(ix).variables is None <==> ix.global_vars is None,
{
}

/// An index that was made of a configuration knows what the configuration describes: its objects
/// by their names in lower case, its variables, and no others.
pub proof fn law_made_index_knows_what_is_described(
    modules: Seq<super::records::ModuleRecordView>,
    objects: Seq<super::records::XmlObjectView>,
    vars: Seq<Seq<char>>,
    collection: Seq<char>,
    name: Seq<char>,
)
    ensures
        (index_answers(tables::tables_of(modules, objects, vars)).object)(collection, name) == Some(true)
            <==> exists|i: int|
            0 <= i < objects.len() && (#[trigger] objects[i]).collection == collection && text::lowercase(
                objects[i].name,
            ) == name,
        index_answers(tables::tables_of(modules, objects, vars)).variables matches Some(names) && (
        names.contains(name) <==> exists|i: int|
            0 <= i < vars.len() && text::lowercase(#[trigger] vars[i]) == name),
{
    let ix = tables::tables_of(modules, objects, vars);
    let rows = ix.objects->0;
    let known = ix.global_vars->0;
    law_index_answers_from_its_rows(ix, rows, known, collection, name);
    assert forall|i: int| 0 <= i < objects.len() implies (#[trigger] rows[i]).collection
        == objects[i].collection && rows[i].name_lower == text::lowercase(objects[i].name) by {}
    if exists|i: int|
        0 <= i < objects.len() && (#[trigger] objects[i]).collection == collection && text::lowercase(
            objects[i].name,
        ) == name {
        let i = choose|i: int|
            0 <= i < objects.len() && (#[trigger] objects[i]).collection == collection && text::lowercase(
                objects[i].name,
            ) == name;
        assert(rows[i].collection == collection);
    }
    assert forall|i: int| 0 <= i < vars.len() implies (#[trigger] known[i]).name_lower == text::lowercase(
        vars[i],
    ) by {}
    if exists|i: int| 0 <= i < vars.len() && text::lowercase(#[trigger] vars[i]) == name {
        let i = choose|i: int| 0 <= i < vars.len() && text::lowercase(#[trigger] vars[i]) == name;
        assert(known[i].name_lower == name);
    }
    if exists|i: int| 0 <= i < known.len() && (#[trigger] known[i]).name_lower == name {
        let i = choose|i: int| 0 <= i < known.len() && (#[trigger] known[i]).name_lower == name;
        assert(text::lowercase(vars[i]) == name);
    }
}

} // verus!
