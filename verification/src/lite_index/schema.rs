//! The fields of an object, merged from all its copies.
//!
//! One object has several copies in a dump: one in the configuration itself, and one in each
//! extension that adds to it. Its fields are those of all copies together, and a field that is
//! declared more than once is indexed where some copy says so.
use super::tables;
use super::tables::{FieldRow, FieldRowView, LiteIndex, LiteIndexView, ObjectRow, ObjectRowView};
use crate::text;
use crate::text::{copy_opt, same_text, to_lower};
use vstd::prelude::*;

verus! {

/// A copy of an object with one of its fields, or with no field where the copy has none.
#[derive(Debug, Clone)]
pub struct SchemaRow {
    pub register_type: Option<String>,
    pub name: Option<String>,
    pub kind: Option<String>,
    pub indexing: Option<String>,
}

/// The value of a row.
pub struct SchemaRowView {
    pub register_type: Option<Seq<char>>,
    pub name: Option<Seq<char>>,
    pub kind: Option<Seq<char>>,
    pub indexing: Option<Seq<char>>,
}

impl View for SchemaRow {
    type V = SchemaRowView;

    open spec fn view(&self) -> SchemaRowView {
        SchemaRowView {
            register_type: text::opt_text(self.register_type),
            name: text::opt_text(self.name),
            kind: text::opt_text(self.kind),
            indexing: text::opt_text(self.indexing),
        }
    }
}

pub open spec fn row_views(v: Seq<SchemaRow>) -> Seq<SchemaRowView> {
    v.map_values(|r: SchemaRow| r@)
}

/// The fields of an object.
#[derive(Debug, Clone)]
pub struct ObjectFields {
    /// `Balance` or `Turnovers`, of an accumulation register only.
    pub register_type: Option<String>,
    /// The name, the kind (`attribute`, `dimension` or `resource`) and the index of each field.
    pub fields: Vec<(String, String, Option<String>)>,
}

/// A field after the merge.
pub struct MergedField {
    pub name: Seq<char>,
    pub kind: Seq<char>,
    pub indexing: Option<Seq<char>>,
}

/// The value of the fields of an object.
#[verifier::ext_equal]
pub struct ObjectFieldsView {
    pub register_type: Option<Seq<char>>,
    pub fields: Seq<MergedField>,
}

pub open spec fn merged_field(f: (String, String, Option<String>)) -> MergedField {
    MergedField { name: f.0@, kind: f.1@, indexing: text::opt_text(f.2) }
}

pub open spec fn merged_fields(v: Seq<(String, String, Option<String>)>) -> Seq<MergedField> {
    v.map_values(|f: (String, String, Option<String>)| merged_field(f))
}

impl View for ObjectFields {
    type V = ObjectFieldsView;

    open spec fn view(&self) -> ObjectFieldsView {
        ObjectFieldsView {
            register_type: text::opt_text(self.register_type),
            fields: merged_fields(self.fields@),
        }
    }
}

/// The field is of a kind, and has a name whatever its letter case.
pub open spec fn is_field(f: MergedField, kind: Seq<char>, name: Seq<char>) -> bool {
    f.kind == kind && text::lowercase(f.name) == text::lowercase(name)
}

/// The position, from `i` on, of the field of a kind with a name.
pub open spec fn field_at(fields: Seq<MergedField>, kind: Seq<char>, name: Seq<char>, i: int) -> Option<
    int,
>
    decreases fields.len() - i,
{
    if i < 0 || i >= fields.len() {
        None
    } else if is_field(fields[i], kind, name) {
        Some(i)
    } else {
        field_at(fields, kind, name, i + 1)
    }
}

/// What one more field does: a new one is added, and one that is there already gets the index
/// that it does not have yet.
pub open spec fn with_field(
    fields: Seq<MergedField>,
    name: Seq<char>,
    kind: Seq<char>,
    indexing: Option<Seq<char>>,
) -> Seq<MergedField> {
    match field_at(fields, kind, name, 0) {
        Some(i) => if fields[i].indexing is None {
            fields.update(i, MergedField { indexing, ..fields[i] })
        } else {
            fields
        },
        None => fields.push(MergedField { name, kind, indexing }),
    }
}

/// What one more row does.
pub open spec fn with_row(m: ObjectFieldsView, row: SchemaRowView) -> ObjectFieldsView {
    ObjectFieldsView {
        register_type: if m.register_type is None {
            row.register_type
        } else {
            m.register_type
        },
        fields: match (row.name, row.kind) {
            (Some(name), Some(kind)) => with_field(m.fields, name, kind, row.indexing),
            _ => m.fields,
        },
    }
}

/// The merge of the first `n` rows.
pub open spec fn merged(rows: Seq<SchemaRowView>, n: int) -> ObjectFieldsView
    decreases n,
{
    if n <= 0 {
        ObjectFieldsView { register_type: None, fields: seq![] }
    } else {
        with_row(merged(rows, n - 1), rows[n - 1])
    }
}

/// The fields of an object by the rows of its copies. Without a row the object is not known.
pub open spec fn merge_of(rows: Seq<SchemaRowView>) -> Option<ObjectFieldsView> {
    if rows.len() == 0 {
        None
    } else {
        Some(merged(rows, rows.len() as int))
    }
}

pub open spec fn opt_fields(o: Option<ObjectFields>) -> Option<ObjectFieldsView> {
    match o {
        Some(f) => Some(f@),
        None => None,
    }
}

fn find_field(fields: &Vec<(String, String, Option<String>)>, kind: &str, name: &str) -> (r: Option<
    usize,
>)
    ensures
        match r {
            Some(i) => i < fields.len() && field_at(merged_fields(fields@), kind@, name@, 0) == Some(
                i as int,
            ),
            None => field_at(merged_fields(fields@), kind@, name@, 0) is None,
        },
{
    let key = to_lower(name);
    let ghost all = merged_fields(fields@);
    let mut i: usize = 0;
    while i < fields.len()
        invariant
            all == merged_fields(fields@),
            key@ == text::lowercase(name@),
            i <= fields.len(),
            field_at(all, kind@, name@, 0) == field_at(all, kind@, name@, i as int),
        decreases fields.len() - i,
    {
        assert(all[i as int] == merged_field(fields[i as int]));
        if same_text(fields[i].1.as_str(), kind) && same_text(
            to_lower(fields[i].0.as_str()).as_str(),
            key.as_str(),
        ) {
            return Some(i);
        }
        i += 1;
    }
    None
}

fn add_field(
    fields: &mut Vec<(String, String, Option<String>)>,
    name: &String,
    kind: &String,
    indexing: &Option<String>,
)
    ensures
        merged_fields(final(fields)@) == with_field(
            merged_fields(old(fields)@),
            name@,
            kind@,
            text::opt_text(*indexing),
        ),
{
    let ghost before = fields@;
    match find_field(fields, kind.as_str(), name.as_str()) {
        Some(i) => {
            assert(merged_fields(before)[i as int] == merged_field(before[i as int]));
            if fields[i].2.is_none() {
                let one = (
                    fields[i].0.as_str().to_string(),
                    fields[i].1.as_str().to_string(),
                    copy_opt(indexing),
                );
                fields.set(i, one);
                assert(merged_fields(fields@) =~= merged_fields(before).update(
                    i as int,
                    merged_field(one),
                ));
            }
        },
        None => {
            let one = (name.as_str().to_string(), kind.as_str().to_string(), copy_opt(indexing));
            fields.push(one);
            assert(merged_fields(fields@) =~= merged_fields(before).push(merged_field(one)));
        },
    }
}

/// Merges the rows of the copies of an object. The fields keep the order in which they come.
pub fn merge_rows(rows: &Vec<SchemaRow>) -> (r: Option<ObjectFields>)
    ensures
        opt_fields(r) == merge_of(row_views(rows@)),
{
    if rows.len() == 0 {
        return None;
    }
    let ghost all = row_views(rows@);
    let mut out = ObjectFields { register_type: None, fields: Vec::new() };
    assert(out@ =~= merged(all, 0));
    for i in 0..rows.len()
        invariant
            all == row_views(rows@),
            out@ == merged(all, i as int),
    {
        let row = &rows[i];
        assert(all[i as int] == row@);
        if out.register_type.is_none() {
            out.register_type = copy_opt(&row.register_type);
        }
        if let (Some(name), Some(kind)) = (&row.name, &row.kind) {
            add_field(&mut out.fields, name, kind, &row.indexing);
        }
        assert(out@ =~= merged(all, i + 1));
    }
    Some(out)
}

/// The rows of one copy of an object: those of its fields among the first `n`.
pub open spec fn rows_of_copy(o: ObjectRowView, fields: Seq<FieldRowView>, n: int) -> Seq<
    SchemaRowView,
>
    decreases n,
{
    if n <= 0 {
        seq![]
    } else if fields[n - 1].object_id == o.id {
        rows_of_copy(o, fields, n - 1).push(
            SchemaRowView {
                register_type: o.register_type,
                name: Some(fields[n - 1].name),
                kind: Some(fields[n - 1].kind),
                indexing: fields[n - 1].indexing,
            },
        )
    } else {
        rows_of_copy(o, fields, n - 1)
    }
}

/// The rows of one copy of an object. A copy without fields has one row too.
pub open spec fn copy_rows(o: ObjectRowView, fields: Seq<FieldRowView>) -> Seq<SchemaRowView> {
    let rows = rows_of_copy(o, fields, fields.len() as int);
    if rows.len() == 0 {
        seq![
            SchemaRowView {
                register_type: o.register_type,
                name: None,
                kind: None,
                indexing: None,
            },
        ]
    } else {
        rows
    }
}

/// The row is that of a copy of the object of a class with a name in lower case.
pub open spec fn is_copy(o: ObjectRowView, collection: Seq<char>, name_lower: Seq<char>) -> bool {
    o.collection == collection && o.name_lower == name_lower
}

/// The rows of the copies of an object among the first `n` objects.
pub open spec fn schema_rows(
    objects: Seq<ObjectRowView>,
    fields: Seq<FieldRowView>,
    collection: Seq<char>,
    name_lower: Seq<char>,
    n: int,
) -> Seq<SchemaRowView>
    decreases n,
{
    if n <= 0 {
        seq![]
    } else if is_copy(objects[n - 1], collection, name_lower) {
        schema_rows(objects, fields, collection, name_lower, n - 1) + copy_rows(
            objects[n - 1],
            fields,
        )
    } else {
        schema_rows(objects, fields, collection, name_lower, n - 1)
    }
}

impl LiteIndexView {
    /// The fields of an object. They are not known where the index has no tables of objects and
    /// fields, or no such object.
    pub open spec fn object_schema(self, collection: Seq<char>, name_lower: Seq<char>) -> Option<
        ObjectFieldsView,
    > {
        match (self.objects, self.fields) {
            (Some(objects), Some(fields)) => merge_of(
                schema_rows(objects, fields, collection, name_lower, objects.len() as int),
            ),
            _ => None,
        }
    }
}

/// The rows of one copy of an object.
fn join_copy(o: &ObjectRow, fields: &Vec<FieldRow>) -> (r: Vec<SchemaRow>)
    ensures
        row_views(r@) == copy_rows(o@, tables::field_rows(fields@)),
{
    let ghost all = tables::field_rows(fields@);
    let mut rows: Vec<SchemaRow> = Vec::new();
    assert(row_views(rows@) =~= seq![]);
    for i in 0..fields.len()
        invariant
            all == tables::field_rows(fields@),
            row_views(rows@) == rows_of_copy(o@, all, i as int),
    {
        let f = &fields[i];
        assert(all[i as int] == f@);
        if f.object_id == o.id {
            let row = SchemaRow {
                register_type: copy_opt(&o.register_type),
                name: Some(f.name.as_str().to_string()),
                kind: Some(f.kind.as_str().to_string()),
                indexing: copy_opt(&f.indexing),
            };
            let ghost before = rows@;
            rows.push(row);
            assert(row_views(rows@) =~= row_views(before).push(row@));
        }
    }
    if rows.len() == 0 {
        let row = SchemaRow {
            register_type: copy_opt(&o.register_type),
            name: None,
            kind: None,
            indexing: None,
        };
        assert(rows_of_copy(o@, all, all.len() as int).len() == row_views(rows@).len());
        rows.push(row);
        assert(row_views(rows@) =~= seq![row@]);
    }
    rows
}

impl LiteIndex {
    /// The fields of an object of a class, by its name in lower case: those of all its copies
    /// together. `None` where the index does not know them.
    pub fn object_schema(&self, collection: &str, name_lower: &str) -> (r: Option<ObjectFields>)
        ensures
            opt_fields(r) == self@.object_schema(collection@, name_lower@),
    {
        match (&self.objects, &self.fields) {
            (Some(objects), Some(fields)) => {
                let ghost all = tables::object_rows(objects@);
                let ghost fs = tables::field_rows(fields@);
                let mut rows: Vec<SchemaRow> = Vec::new();
                assert(row_views(rows@) =~= seq![]);
                for i in 0..objects.len()
                    invariant
                        all == tables::object_rows(objects@),
                        fs == tables::field_rows(fields@),
                        row_views(rows@) == schema_rows(
                            all,
                            fs,
                            collection@,
                            name_lower@,
                            i as int,
                        ),
                {
                    let o = &objects[i];
                    assert(all[i as int] == o@);
                    if same_text(o.collection.as_str(), collection) && same_text(
                        o.name_lower.as_str(),
                        name_lower,
                    ) {
                        let mut more = join_copy(o, fields);
                        let ghost before = rows@;
                        let ghost added = more@;
                        rows.append(&mut more);
                        assert(row_views(rows@) =~= row_views(before) + row_views(added));
                    }
                }
                merge_rows(&rows)
            },
            _ => None,
        }
    }
}

/// The row declares a field of a kind with a name, whatever its letter case.
pub open spec fn declares(row: SchemaRowView, kind: Seq<char>, name: Seq<char>) -> bool {
    row.kind == Some(kind) && row.name is Some && text::lowercase(row.name->0) == text::lowercase(name)
}

/// Among the first `n` rows, some declares the field.
pub open spec fn declared(rows: Seq<SchemaRowView>, n: int, kind: Seq<char>, name: Seq<char>) -> bool {
    exists|k: int| 0 <= k < n && declares(#[trigger] rows[k], kind, name)
}

/// Among the first `n` rows, some declares the field as indexed.
pub open spec fn declared_indexed(
    rows: Seq<SchemaRowView>,
    n: int,
    kind: Seq<char>,
    name: Seq<char>,
) -> bool {
    exists|k: int|
        0 <= k < n && declares(#[trigger] rows[k], kind, name) && rows[k].indexing is Some
}

proof fn lemma_field_at(fields: Seq<MergedField>, kind: Seq<char>, name: Seq<char>, i: int)
    requires
        0 <= i <= fields.len(),
    ensures
        match field_at(fields, kind, name, i) {
            Some(k) => i <= k < fields.len() && is_field(fields[k], kind, name),
            None => forall|k: int| i <= k < fields.len() ==> !is_field(#[trigger] fields[k], kind, name),
        },
    decreases fields.len() - i,
{
    if i < fields.len() && !is_field(fields[i], kind, name) {
        lemma_field_at(fields, kind, name, i + 1);
    }
}

/// No two fields are the same.
spec fn fields_differ(fields: Seq<MergedField>) -> bool {
    forall|i: int, j: int|
        0 <= i < j < fields.len() ==> !is_field(
            #[trigger] fields[i],
            (#[trigger] fields[j]).kind,
            fields[j].name,
        )
}

/// The field is declared, and it is indexed where it is declared as indexed.
spec fn is_right(rows: Seq<SchemaRowView>, n: int, f: MergedField) -> bool {
    declared(rows, n, f.kind, f.name) && (f.indexing is Some <==> declared_indexed(
        rows,
        n,
        f.kind,
        f.name,
    ))
}

/// Every field is right.
spec fn fields_are_right(rows: Seq<SchemaRowView>, n: int, fields: Seq<MergedField>) -> bool {
    forall|i: int| 0 <= i < fields.len() ==> is_right(rows, n, #[trigger] fields[i])
}

/// Some field is of a kind and has a name.
spec fn has_field(fields: Seq<MergedField>, kind: Seq<char>, name: Seq<char>) -> bool {
    exists|i: int| 0 <= i < fields.len() && is_field(#[trigger] fields[i], kind, name)
}

/// Every row has its field.
spec fn rows_are_covered(rows: Seq<SchemaRowView>, n: int, fields: Seq<MergedField>) -> bool {
    forall|k: int|
        0 <= k < n && (#[trigger] rows[k]).name is Some && rows[k].kind is Some ==> has_field(
            fields,
            rows[k].kind->0,
            rows[k].name->0,
        )
}

/// What holds of every merge.
spec fn merge_holds(rows: Seq<SchemaRowView>, n: int) -> bool {
    let fields = merged(rows, n).fields;
    &&& fields_differ(fields)
    &&& fields_are_right(rows, n, fields)
    &&& rows_are_covered(rows, n, fields)
}

proof fn lemma_declared_step(rows: Seq<SchemaRowView>, n: int, kind: Seq<char>, name: Seq<char>)
    requires
        0 < n <= rows.len(),
    ensures
        declared(rows, n, kind, name) <==> declared(rows, n - 1, kind, name) || declares(
            rows[n - 1],
            kind,
            name,
        ),
        declared_indexed(rows, n, kind, name) <==> declared_indexed(rows, n - 1, kind, name) || (
        declares(rows[n - 1], kind, name) && rows[n - 1].indexing is Some),
{
    if declared(rows, n, kind, name) && !declares(rows[n - 1], kind, name) {
        let k = choose|k: int| 0 <= k < n && declares(#[trigger] rows[k], kind, name);
        assert(declares(rows[k], kind, name) && k < n - 1);
    }
    if declared(rows, n - 1, kind, name) {
        let k = choose|k: int| 0 <= k < n - 1 && declares(#[trigger] rows[k], kind, name);
        assert(declares(rows[k], kind, name));
    }
    if declared_indexed(rows, n, kind, name) && !(declares(rows[n - 1], kind, name)
        && rows[n - 1].indexing is Some) {
        let k = choose|k: int|
            0 <= k < n && declares(#[trigger] rows[k], kind, name) && rows[k].indexing is Some;
        assert(declares(rows[k], kind, name) && k < n - 1);
    }
    if declared_indexed(rows, n - 1, kind, name) {
        let k = choose|k: int|
            0 <= k < n - 1 && declares(#[trigger] rows[k], kind, name) && rows[k].indexing is Some;
        assert(declares(rows[k], kind, name));
    }
}

/// One more field keeps names and kinds, and adds one field at most.
proof fn lemma_with_field(
    fields: Seq<MergedField>,
    name: Seq<char>,
    kind: Seq<char>,
    indexing: Option<Seq<char>>,
)
    ensures
        ({
            let after = with_field(fields, name, kind, indexing);
            &&& fields.len() <= after.len() <= fields.len() + 1
            &&& forall|i: int|
                0 <= i < fields.len() ==> (#[trigger] after[i]).kind == fields[i].kind
                    && after[i].name == fields[i].name
            &&& after.len() == fields.len() + 1 <==> !has_field(fields, kind, name)
            &&& after.len() == fields.len() + 1 ==> after.last() == (MergedField {
                name,
                kind,
                indexing,
            })
            &&& has_field(after, kind, name)
        }),
{
    lemma_field_at(fields, kind, name, 0);
    let after = with_field(fields, name, kind, indexing);
    match field_at(fields, kind, name, 0) {
        Some(i) => {
            assert(is_field(fields[i], kind, name));
            assert(is_field(after[i], kind, name));
        },
        None => {
            assert(is_field(after[fields.len() as int], kind, name));
        },
    }
}

proof fn lemma_differ_step(
    fields: Seq<MergedField>,
    name: Seq<char>,
    kind: Seq<char>,
    indexing: Option<Seq<char>>,
)
    requires
        fields_differ(fields),
    ensures
        fields_differ(with_field(fields, name, kind, indexing)),
{
    let after = with_field(fields, name, kind, indexing);
    lemma_with_field(fields, name, kind, indexing);
    assert forall|i: int, j: int| 0 <= i < j < after.len() implies !is_field(
        #[trigger] after[i],
        (#[trigger] after[j]).kind,
        after[j].name,
    ) by {
        if j < fields.len() {
            assert(!is_field(fields[i], fields[j].kind, fields[j].name));
        } else {
            assert(!is_field(fields[i], kind, name));
        }
    }
}

proof fn lemma_right_step(rows: Seq<SchemaRowView>, n: int, fields: Seq<MergedField>, i: int)
    requires
        0 < n <= rows.len(),
        rows[n - 1].name is Some,
        rows[n - 1].kind is Some,
        fields_differ(fields),
        fields_are_right(rows, n - 1, fields),
        rows_are_covered(rows, n - 1, fields),
        0 <= i < with_field(
            fields,
            rows[n - 1].name->0,
            rows[n - 1].kind->0,
            rows[n - 1].indexing,
        ).len(),
    ensures
        is_right(
            rows,
            n,
            with_field(
                fields,
                rows[n - 1].name->0,
                rows[n - 1].kind->0,
                rows[n - 1].indexing,
            )[i],
        ),
{
    let row = rows[n - 1];
    let (name, kind) = (row.name->0, row.kind->0);
    let f = with_field(fields, name, kind, row.indexing)[i];
    lemma_with_field(fields, name, kind, row.indexing);
    lemma_field_at(fields, kind, name, 0);
    lemma_declared_step(rows, n, f.kind, f.name);
    if i < fields.len() {
        assert(is_right(rows, n - 1, fields[i]));
        if declares(row, f.kind, f.name) {
            assert(is_field(fields[i], kind, name));
            let j = field_at(fields, kind, name, 0)->0;
            if j < i {
                assert(is_field(fields[j], fields[i].kind, fields[i].name));
            }
            if i < j {
                assert(is_field(fields[i], fields[j].kind, fields[j].name));
            }
        }
    } else if declared_indexed(rows, n - 1, f.kind, f.name) {
        let k = choose|k: int|
            0 <= k < n - 1 && declares(#[trigger] rows[k], f.kind, f.name)
                && rows[k].indexing is Some;
        assert(has_field(fields, rows[k].kind->0, rows[k].name->0));
        let g = choose|g: int|
            0 <= g < fields.len() && is_field(
                #[trigger] fields[g],
                rows[k].kind->0,
                rows[k].name->0,
            );
        assert(is_field(fields[g], kind, name));
    }
}

proof fn lemma_covered_step(rows: Seq<SchemaRowView>, n: int, fields: Seq<MergedField>, k: int)
    requires
        0 <= k < n <= rows.len(),
        rows[n - 1].name is Some,
        rows[n - 1].kind is Some,
        rows_are_covered(rows, n - 1, fields),
        rows[k].name is Some,
        rows[k].kind is Some,
    ensures
        has_field(
            with_field(
                fields,
                rows[n - 1].name->0,
                rows[n - 1].kind->0,
                rows[n - 1].indexing,
            ),
            rows[k].kind->0,
            rows[k].name->0,
        ),
{
    let row = rows[n - 1];
    let after = with_field(fields, row.name->0, row.kind->0, row.indexing);
    lemma_with_field(fields, row.name->0, row.kind->0, row.indexing);
    if k < n - 1 {
        assert(has_field(fields, rows[k].kind->0, rows[k].name->0));
        let i = choose|i: int|
            0 <= i < fields.len() && is_field(
                #[trigger] fields[i],
                rows[k].kind->0,
                rows[k].name->0,
            );
        assert(is_field(after[i], rows[k].kind->0, rows[k].name->0));
    }
}

proof fn lemma_merge_holds(rows: Seq<SchemaRowView>, n: int)
    requires
        0 <= n <= rows.len(),
    ensures
        merge_holds(rows, n),
    decreases n,
{
    if n > 0 {
        lemma_merge_holds(rows, n - 1);
        let row = rows[n - 1];
        let before = merged(rows, n - 1).fields;
        let after = merged(rows, n).fields;
        if row.name is Some && row.kind is Some {
            lemma_differ_step(before, row.name->0, row.kind->0, row.indexing);
            assert forall|i: int| 0 <= i < after.len() implies is_right(
                rows,
                n,
                #[trigger] after[i],
            ) by {
                lemma_right_step(rows, n, before, i);
            }
            assert forall|k: int|
                0 <= k < n && (#[trigger] rows[k]).name is Some
                    && rows[k].kind is Some implies has_field(
                after,
                rows[k].kind->0,
                rows[k].name->0,
            ) by {
                lemma_covered_step(rows, n, before, k);
            }
        } else {
            assert(after == before);
            assert forall|i: int| 0 <= i < after.len() implies is_right(
                rows,
                n,
                #[trigger] after[i],
            ) by {
                assert(is_right(rows, n - 1, before[i]));
                lemma_declared_step(rows, n, after[i].kind, after[i].name);
            }
        }
    }
}

proof fn lemma_same_declared(
    rows: Seq<SchemaRowView>,
    n: int,
    kind: Seq<char>,
    a: Seq<char>,
    b: Seq<char>,
)
    ensures
        text::lowercase(a) == text::lowercase(b) ==> declared(rows, n, kind, a) == declared(
            rows,
            n,
            kind,
            b,
        ),
{
    if text::lowercase(a) == text::lowercase(b) {
        if declared(rows, n, kind, a) {
            let k = choose|k: int| 0 <= k < n && declares(#[trigger] rows[k], kind, a);
            assert(declares(rows[k], kind, b));
        }
        if declared(rows, n, kind, b) {
            let k = choose|k: int| 0 <= k < n && declares(#[trigger] rows[k], kind, b);
            assert(declares(rows[k], kind, a));
        }
    }
}

/// No two fields of an object are the same: they differ in kind, or in name beyond letter case.
pub proof fn law_merged_fields_differ(rows: Seq<SchemaRowView>, i: int, j: int)
    requires
        0 <= i < j < merged(rows, rows.len() as int).fields.len(),
    ensures
        !is_field(
            merged(rows, rows.len() as int).fields[i],
            merged(rows, rows.len() as int).fields[j].kind,
            merged(rows, rows.len() as int).fields[j].name,
        ),
{
    lemma_merge_holds(rows, rows.len() as int);
}

/// An object has exactly the fields that some copy declares.
pub proof fn law_fields_of_all_copies(rows: Seq<SchemaRowView>, kind: Seq<char>, name: Seq<char>)
    ensures
        (exists|i: int|
            0 <= i < merged(rows, rows.len() as int).fields.len() && is_field(
                #[trigger] merged(rows, rows.len() as int).fields[i],
                kind,
                name,
            )) <==> declared(rows, rows.len() as int, kind, name),
{
    let n = rows.len() as int;
    let fields = merged(rows, n).fields;
    lemma_merge_holds(rows, n);
    if exists|i: int| 0 <= i < fields.len() && is_field(#[trigger] fields[i], kind, name) {
        let i = choose|i: int| 0 <= i < fields.len() && is_field(#[trigger] fields[i], kind, name);
        assert(is_right(rows, n, fields[i]));
        lemma_same_declared(rows, n, kind, fields[i].name, name);
    }
    if declared(rows, n, kind, name) {
        let k = choose|k: int| 0 <= k < n && declares(#[trigger] rows[k], kind, name);
        assert(has_field(fields, rows[k].kind->0, rows[k].name->0));
        let i = choose|i: int|
            0 <= i < fields.len() && is_field(
                #[trigger] fields[i],
                rows[k].kind->0,
                rows[k].name->0,
            );
        assert(is_field(fields[i], kind, name));
    }
}

/// A field is indexed exactly where some copy declares it as indexed.
pub proof fn law_index_of_any_copy_counts(rows: Seq<SchemaRowView>, i: int)
    requires
        0 <= i < merged(rows, rows.len() as int).fields.len(),
    ensures
        merged(rows, rows.len() as int).fields[i].indexing is Some <==> declared_indexed(
            rows,
            rows.len() as int,
            merged(rows, rows.len() as int).fields[i].kind,
            merged(rows, rows.len() as int).fields[i].name,
        ),
{
    lemma_merge_holds(rows, rows.len() as int);
    assert(is_right(rows, rows.len() as int, merged(rows, rows.len() as int).fields[i]));
}

proof fn lemma_register_type(rows: Seq<SchemaRowView>, n: int, i: int)
    requires
        0 <= n <= rows.len(),
        0 <= i,
        forall|k: int| 0 <= k < i && k < n ==> (#[trigger] rows[k]).register_type is None,
    ensures
        n <= i ==> merged(rows, n).register_type is None,
        i < n && rows[i].register_type is Some ==> merged(rows, n).register_type == rows[i].register_type,
    decreases n,
{
    if n > 0 {
        lemma_register_type(rows, n - 1, i);
    }
}

/// The sort of a register is the one that the first copy with any says; copies without one change
/// nothing.
pub proof fn law_sort_of_a_register(rows: Seq<SchemaRowView>, i: int)
    requires
        0 <= i < rows.len(),
        forall|k: int| 0 <= k < i ==> (#[trigger] rows[k]).register_type is None,
    ensures
        rows[i].register_type is Some ==> merged(rows, rows.len() as int).register_type
            == rows[i].register_type,
        (forall|k: int| 0 <= k < rows.len() ==> (#[trigger] rows[k]).register_type is None) ==> merged(
            rows,
            rows.len() as int,
        ).register_type is None,
{
    lemma_register_type(rows, rows.len() as int, i);
    if forall|k: int| 0 <= k < rows.len() ==> (#[trigger] rows[k]).register_type is None {
        lemma_register_type(rows, rows.len() as int, rows.len() as int);
    }
}

/// A field is named as the first copy that has it writes it, and the fields stand in the order in
/// which the copies first have them: a copy that is looked at later changes no name and no place.
pub proof fn law_first_copy_names_the_field(rows: Seq<SchemaRowView>, n: int, i: int)
    requires
        0 <= n < rows.len(),
        0 <= i < merged(rows, n).fields.len(),
    ensures
        i < merged(rows, n + 1).fields.len(),
        merged(rows, n + 1).fields[i].name == merged(rows, n).fields[i].name,
        merged(rows, n + 1).fields[i].kind == merged(rows, n).fields[i].kind,
        merged(rows, n).fields[i].indexing is Some ==> merged(rows, n + 1).fields[i].indexing
            == merged(rows, n).fields[i].indexing,
        merged(rows, n + 1).fields.len() <= merged(rows, n).fields.len() + 1,
{
    let before = merged(rows, n).fields;
    if let (Some(name), Some(kind)) = (rows[n].name, rows[n].kind) {
        lemma_field_at(before, kind, name, 0);
    }
}

} // verus!
