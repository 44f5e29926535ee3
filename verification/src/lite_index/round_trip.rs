//! What is written to an index is what it answers.
use super::records;
use super::schema;
use super::tables;
use crate::text;
use vstd::prelude::*;

verus! {

proof fn lemma_method_rows(modules: Seq<records::ModuleRecordView>, n: int, k: int)
    requires
        0 <= n <= modules.len(),
        0 <= k < tables::all_method_rows(modules, n).len(),
    ensures
        exists|i: int, j: int|
            0 <= i < n && 0 <= j < modules[i].methods.len() && tables::all_method_rows(
                modules,
                n,
            )[k] == #[trigger] tables::method_row(modules[i].methods[j], i + 1),
    decreases n,
{
    if n > 0 {
        let before = tables::all_method_rows(modules, n - 1);
        if k < before.len() {
            lemma_method_rows(modules, n - 1, k);
            let (i, j) = choose|i: int, j: int|
                0 <= i < n - 1 && 0 <= j < modules[i].methods.len() && before[k]
                    == #[trigger] tables::method_row(modules[i].methods[j], i + 1);
            assert(tables::all_method_rows(modules, n)[k] == tables::method_row(
                modules[i].methods[j],
                i + 1,
            ));
        } else {
            let j = k - before.len();
            assert(tables::all_method_rows(modules, n)[k] == tables::method_row(
                modules[n - 1].methods[j],
                (n - 1) + 1,
            ));
        }
    }
}

proof fn lemma_method_is_written(
    modules: Seq<records::ModuleRecordView>,
    n: int,
    i: int,
    j: int,
) -> (k: int)
    requires
        0 <= i < n <= modules.len(),
        0 <= j < modules[i].methods.len(),
    ensures
        0 <= k < tables::all_method_rows(modules, n).len(),
        tables::all_method_rows(modules, n)[k] == tables::method_row(modules[i].methods[j], i + 1),
    decreases n,
{
    let before = tables::all_method_rows(modules, n - 1);
    if i < n - 1 {
        let k = lemma_method_is_written(modules, n - 1, i, j);
        assert(tables::all_method_rows(modules, n)[k] == before[k]);
        k
    } else {
        before.len() + j
    }
}

/// Some module declares the method: the module at the position `i` with its method at `j`.
pub open spec fn declares_method(
    modules: Seq<records::ModuleRecordView>,
    name: Seq<char>,
    i: int,
    j: int,
) -> bool {
    0 <= i < modules.len() && 0 <= j < modules[i].methods.len() && text::lowercase(
        modules[i].methods[j].name,
    ) == text::lowercase(name)
}

/// An index has exactly the methods that the modules of the dump declare.
pub proof fn law_methods_are_those_declared(
    modules: Seq<records::ModuleRecordView>,
    objects: Seq<records::XmlObjectView>,
    vars: Seq<Seq<char>>,
    name: Seq<char>,
)
    ensures
        tables::tables_of(modules, objects, vars).method_exists(name) <==> exists|i: int, j: int|
            declares_method(modules, name, i, j),
{
    let ix = tables::tables_of(modules, objects, vars);
    let n = modules.len() as int;
    if ix.method_exists(name) {
        let k = choose|k: int|
            0 <= k < ix.methods.len() && (#[trigger] ix.methods[k]).name_lower == text::lowercase(
                name,
            );
        lemma_method_rows(modules, n, k);
        let (i, j) = choose|i: int, j: int|
            0 <= i < n && 0 <= j < modules[i].methods.len() && ix.methods[k]
                == #[trigger] tables::method_row(modules[i].methods[j], i + 1);
        assert(declares_method(modules, name, i, j));
    }
    if exists|i: int, j: int| declares_method(modules, name, i, j) {
        let (i, j) = choose|i: int, j: int| declares_method(modules, name, i, j);
        let k = lemma_method_is_written(modules, n, i, j);
        assert(ix.methods[k].name_lower == text::lowercase(name));
    }
}

/// An index calls a method a global export exactly where a global common module of the dump
/// declares it as exported.
pub proof fn law_global_exports_are_those_declared(
    modules: Seq<records::ModuleRecordView>,
    objects: Seq<records::XmlObjectView>,
    vars: Seq<Seq<char>>,
    name: Seq<char>,
)
    ensures
        tables::tables_of(modules, objects, vars).is_global_export(name) <==> exists|
            i: int,
            j: int,
        |
            declares_method(modules, name, i, j) && modules[i].is_global
                && modules[i].methods[j].is_export,
{
    let ix = tables::tables_of(modules, objects, vars);
    let n = modules.len() as int;
    assert forall|i: int| 0 <= i < n implies (#[trigger] ix.modules[i]).id == i + 1
        && ix.modules[i].is_global == modules[i].is_global by {}
    if ix.is_global_export(name) {
        let k = choose|k: int|
            0 <= k < ix.methods.len() && (#[trigger] ix.methods[k]).name_lower == text::lowercase(
                name,
            ) && ix.globally_exported(ix.methods[k]);
        lemma_method_rows(modules, n, k);
        let (i, j) = choose|i: int, j: int|
            0 <= i < n && 0 <= j < modules[i].methods.len() && ix.methods[k]
                == #[trigger] tables::method_row(modules[i].methods[j], i + 1);
        assert(declares_method(modules, name, i, j));
        let g = choose|g: int|
            0 <= g < ix.modules.len() && (#[trigger] ix.modules[g]).id == ix.methods[k].module_id
                && ix.modules[g].is_global;
        assert(g == i);
    }
    if exists|i: int, j: int|
        declares_method(modules, name, i, j) && modules[i].is_global
            && modules[i].methods[j].is_export {
        let (i, j) = choose|i: int, j: int|
            declares_method(modules, name, i, j) && modules[i].is_global
                && modules[i].methods[j].is_export;
        let k = lemma_method_is_written(modules, n, i, j);
        assert(ix.modules[i].id == ix.methods[k].module_id);
        assert(ix.methods[k].name_lower == text::lowercase(name));
    }
}

/// A global export is a method that exists.
pub proof fn law_global_export_exists(ix: tables::LiteIndexView, name: Seq<char>)
    requires
        ix.is_global_export(name),
    ensures
        ix.method_exists(name),
{
    let k = choose|k: int|
        0 <= k < ix.methods.len() && (#[trigger] ix.methods[k]).name_lower == text::lowercase(name)
            && ix.globally_exported(ix.methods[k]);
    assert(ix.methods[k].name_lower == text::lowercase(name));
}

/// An index has exactly the objects that the dump describes.
pub proof fn law_objects_are_those_described(
    modules: Seq<records::ModuleRecordView>,
    objects: Seq<records::XmlObjectView>,
    vars: Seq<Seq<char>>,
    collection: Seq<char>,
    name: Seq<char>,
)
    ensures
        tables::tables_of(modules, objects, vars).objects is Some,
        tables::tables_of(modules, objects, vars).has_object(collection, name) <==> exists|i: int|
            0 <= i < objects.len() && (#[trigger] objects[i]).collection == collection
                && objects[i].name == name,
{
    let ix = tables::tables_of(modules, objects, vars);
    let rows = ix.objects->0;
    if ix.has_object(collection, name) {
        let i = choose|i: int|
            0 <= i < rows.len() && (#[trigger] rows[i]).collection == collection && rows[i].name
                == name;
        assert(objects[i].collection == collection);
    }
    if exists|i: int|
        0 <= i < objects.len() && (#[trigger] objects[i]).collection == collection
            && objects[i].name == name {
        let i = choose|i: int|
            0 <= i < objects.len() && (#[trigger] objects[i]).collection == collection
                && objects[i].name == name;
        assert(rows[i].collection == collection && rows[i].name == name);
    }
}

proof fn lemma_field_is_written(
    objects: Seq<records::XmlObjectView>,
    n: int,
    i: int,
    j: int,
) -> (k: int)
    requires
        0 <= i < n <= objects.len(),
        0 <= j < objects[i].fields.len(),
    ensures
        0 <= k < tables::all_field_rows(objects, n).len(),
        tables::all_field_rows(objects, n)[k] == tables::field_row(objects[i].fields[j], i + 1),
    decreases n,
{
    let before = tables::all_field_rows(objects, n - 1);
    if i < n - 1 {
        let k = lemma_field_is_written(objects, n - 1, i, j);
        assert(tables::all_field_rows(objects, n)[k] == before[k]);
        k
    } else {
        before.len() + j
    }
}

proof fn lemma_field_is_joined(
    o: tables::ObjectRowView,
    fields: Seq<tables::FieldRowView>,
    n: int,
    k: int,
) -> (r: int)
    requires
        0 <= k < n <= fields.len(),
        fields[k].object_id == o.id,
    ensures
        0 <= r < schema::rows_of_copy(o, fields, n).len(),
        schema::rows_of_copy(o, fields, n)[r].name == Some(fields[k].name),
        schema::rows_of_copy(o, fields, n)[r].kind == Some(fields[k].kind),
        schema::rows_of_copy(o, fields, n)[r].indexing == fields[k].indexing,
    decreases n,
{
    let before = schema::rows_of_copy(o, fields, n - 1);
    if k < n - 1 {
        let r = lemma_field_is_joined(o, fields, n - 1, k);
        assert(schema::rows_of_copy(o, fields, n)[r] == before[r]);
        r
    } else {
        before.len() as int
    }
}

proof fn lemma_copy_is_joined(
    objects: Seq<tables::ObjectRowView>,
    fields: Seq<tables::FieldRowView>,
    collection: Seq<char>,
    name_lower: Seq<char>,
    n: int,
    i: int,
    r: int,
) -> (s: int)
    requires
        0 <= i < n <= objects.len(),
        schema::is_copy(objects[i], collection, name_lower),
        0 <= r < schema::copy_rows(objects[i], fields).len(),
    ensures
        0 <= s < schema::schema_rows(objects, fields, collection, name_lower, n).len(),
        schema::schema_rows(objects, fields, collection, name_lower, n)[s] == schema::copy_rows(
            objects[i],
            fields,
        )[r],
    decreases n,
{
    let before = schema::schema_rows(objects, fields, collection, name_lower, n - 1);
    if i < n - 1 {
        let s = lemma_copy_is_joined(objects, fields, collection, name_lower, n - 1, i, r);
        assert(schema::schema_rows(objects, fields, collection, name_lower, n)[s] == before[s]);
        s
    } else {
        before.len() + r
    }
}

/// Every field that the description of an object declares is among the fields of the object in
/// the index, and it is indexed there if it is in the description.
pub proof fn law_described_fields_are_known(
    modules: Seq<records::ModuleRecordView>,
    objects: Seq<records::XmlObjectView>,
    vars: Seq<Seq<char>>,
    i: int,
    j: int,
)
    requires
        0 <= i < objects.len(),
        0 <= j < objects[i].fields.len(),
    ensures
        ({
            let known = tables::tables_of(modules, objects, vars).object_schema(
                objects[i].collection,
                text::lowercase(objects[i].name),
            );
            let f = objects[i].fields[j];
            known is Some && exists|m: int|
                0 <= m < known->0.fields.len() && schema::is_field(
                    #[trigger] known->0.fields[m],
                    f.kind.word(),
                    f.name,
                ) && (f.indexing is Some ==> known->0.fields[m].indexing is Some)
        }),
{
    let ix = tables::tables_of(modules, objects, vars);
    let (os, fs) = (ix.objects->0, ix.fields->0);
    let f = objects[i].fields[j];
    let (collection, key) = (objects[i].collection, text::lowercase(objects[i].name));
    let k = lemma_field_is_written(objects, objects.len() as int, i, j);
    let r = lemma_field_is_joined(os[i], fs, fs.len() as int, k);
    let rows = schema::schema_rows(os, fs, collection, key, os.len() as int);
    let s = lemma_copy_is_joined(os, fs, collection, key, os.len() as int, i, r);
    let n = rows.len() as int;
    let all = schema::merged(rows, n).fields;
    assert(schema::declares(rows[s], f.kind.word(), f.name));
    schema::law_fields_of_all_copies(rows, f.kind.word(), f.name);
    let m = choose|m: int|
        0 <= m < all.len() && schema::is_field(#[trigger] all[m], f.kind.word(), f.name);
    schema::law_index_of_any_copy_counts(rows, m);
    assert(schema::declares(rows[s], all[m].kind, all[m].name));
}

/// An index that has no table of fields, or none of objects, knows nothing of any object.
pub proof fn law_missing_tables_are_unknown(
    ix: tables::LiteIndexView,
    collection: Seq<char>,
    name_lower: Seq<char>,
)
    requires
        ix.fields is None || ix.objects is None,
    ensures
        ix.object_schema(collection, name_lower) is None,
{
}

} // verus!
