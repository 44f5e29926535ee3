//! The tables of an index, and how they are filled.
use super::layout;
use super::object_xml;
use super::object_xml::XmlField;
use super::records;
use super::records::{MethodDecl, MethodDeclView, ModuleRecord, ModuleRecordView, XmlObject, XmlObjectView};
use crate::text;
use crate::text::{copy_opt, to_lower};
use vstd::prelude::*;

verus! {

/// A module.
#[derive(Debug, Clone)]
pub struct ModuleRow {
    pub id: u64,
    pub path: String,
    pub scope: String,
    pub collection: Option<String>,
    pub object_name: Option<String>,
    pub module_type: String,
    pub is_global: bool,
    pub is_extension: bool,
    pub owner_path: Option<String>,
}

/// The value of a row for a module.
pub struct ModuleRowView {
    pub id: int,
    pub path: Seq<char>,
    pub facts: layout::ParsedPathView,
    pub is_global: bool,
    pub is_extension: bool,
}

impl View for ModuleRow {
    type V = ModuleRowView;

    open spec fn view(&self) -> ModuleRowView {
        ModuleRowView {
            id: self.id as int,
            path: self.path@,
            facts: layout::ParsedPathView {
                scope: self.scope@,
                collection: text::opt_text(self.collection),
                object_name: text::opt_text(self.object_name),
                module_type: self.module_type@,
                owner_path: text::opt_text(self.owner_path),
            },
            is_global: self.is_global,
            is_extension: self.is_extension,
        }
    }
}

/// A method of a module. The name is kept in lower case too.
#[derive(Debug, Clone)]
pub struct MethodRow {
    pub module_id: u64,
    pub name: String,
    pub name_lower: String,
    pub is_function: bool,
    pub is_export: bool,
    pub directive: Option<String>,
    pub line_start: u64,
    pub params: String,
}

/// The value of a row for a method.
pub struct MethodRowView {
    pub module_id: int,
    pub name_lower: Seq<char>,
    pub decl: MethodDeclView,
}

impl View for MethodRow {
    type V = MethodRowView;

    open spec fn view(&self) -> MethodRowView {
        MethodRowView {
            module_id: self.module_id as int,
            name_lower: self.name_lower@,
            decl: MethodDeclView {
                name: self.name@,
                is_function: self.is_function,
                is_export: self.is_export,
                directive: text::opt_text(self.directive),
                line_start: self.line_start,
                params: self.params@,
            },
        }
    }
}

/// An object of the configuration. One object has a row for each of its copies: one in the
/// configuration itself and one in each extension that adds to it.
#[derive(Debug, Clone)]
pub struct ObjectRow {
    pub id: u64,
    pub collection: String,
    pub name: String,
    pub name_lower: String,
    pub register_type: Option<String>,
}

/// The value of a row for an object.
pub struct ObjectRowView {
    pub id: int,
    pub collection: Seq<char>,
    pub name: Seq<char>,
    pub name_lower: Seq<char>,
    pub register_type: Option<Seq<char>>,
}

impl View for ObjectRow {
    type V = ObjectRowView;

    open spec fn view(&self) -> ObjectRowView {
        ObjectRowView {
            id: self.id as int,
            collection: self.collection@,
            name: self.name@,
            name_lower: self.name_lower@,
            register_type: text::opt_text(self.register_type),
        }
    }
}

/// A field of an object.
#[derive(Debug, Clone)]
pub struct FieldRow {
    pub object_id: u64,
    pub name: String,
    pub name_lower: String,
    /// `attribute`, `dimension` or `resource`.
    pub kind: String,
    pub indexing: Option<String>,
}

/// The value of a row for a field.
pub struct FieldRowView {
    pub object_id: int,
    pub name: Seq<char>,
    pub name_lower: Seq<char>,
    pub kind: Seq<char>,
    pub indexing: Option<Seq<char>>,
}

impl View for FieldRow {
    type V = FieldRowView;

    open spec fn view(&self) -> FieldRowView {
        FieldRowView {
            object_id: self.object_id as int,
            name: self.name@,
            name_lower: self.name_lower@,
            kind: self.kind@,
            indexing: text::opt_text(self.indexing),
        }
    }
}

/// An exported variable of an application.
#[derive(Debug, Clone)]
pub struct VarRow {
    pub name: String,
    pub name_lower: String,
}

/// The value of a row for a variable.
pub struct VarRowView {
    pub name: Seq<char>,
    pub name_lower: Seq<char>,
}

impl View for VarRow {
    type V = VarRowView;

    open spec fn view(&self) -> VarRowView {
        VarRowView { name: self.name@, name_lower: self.name_lower@ }
    }
}

pub open spec fn module_rows(v: Seq<ModuleRow>) -> Seq<ModuleRowView> {
    v.map_values(|r: ModuleRow| r@)
}

pub open spec fn method_rows(v: Seq<MethodRow>) -> Seq<MethodRowView> {
    v.map_values(|r: MethodRow| r@)
}

pub open spec fn object_rows(v: Seq<ObjectRow>) -> Seq<ObjectRowView> {
    v.map_values(|r: ObjectRow| r@)
}

pub open spec fn field_rows(v: Seq<FieldRow>) -> Seq<FieldRowView> {
    v.map_values(|r: FieldRow| r@)
}

pub open spec fn var_rows(v: Seq<VarRow>) -> Seq<VarRowView> {
    v.map_values(|r: VarRow| r@)
}

/// The tables of an index. A table that the index does not have, because it was made without
/// it, is `None`: what it would say is unknown, which is not the same as an empty table.
#[derive(Debug, Clone)]
pub struct LiteIndex {
    pub modules: Vec<ModuleRow>,
    pub methods: Vec<MethodRow>,
    pub objects: Option<Vec<ObjectRow>>,
    pub fields: Option<Vec<FieldRow>>,
    pub global_vars: Option<Vec<VarRow>>,
}

/// The value of an index.
#[verifier::ext_equal]
pub struct LiteIndexView {
    pub modules: Seq<ModuleRowView>,
    pub methods: Seq<MethodRowView>,
    pub objects: Option<Seq<ObjectRowView>>,
    pub fields: Option<Seq<FieldRowView>>,
    pub global_vars: Option<Seq<VarRowView>>,
}

impl View for LiteIndex {
    type V = LiteIndexView;

    open spec fn view(&self) -> LiteIndexView {
        LiteIndexView {
            modules: module_rows(self.modules@),
            methods: method_rows(self.methods@),
            objects: match self.objects {
                Some(v) => Some(object_rows(v@)),
                None => None,
            },
            fields: match self.fields {
                Some(v) => Some(field_rows(v@)),
                None => None,
            },
            global_vars: match self.global_vars {
                Some(v) => Some(var_rows(v@)),
                None => None,
            },
        }
    }
}

/// The row of the module at the position `i`: rows are numbered from one.
pub open spec fn module_row(modules: Seq<ModuleRecordView>, i: int) -> ModuleRowView {
    let m = modules[i];
    ModuleRowView {
        id: i + 1,
        path: m.path,
        facts: m.facts,
        is_global: m.is_global,
        is_extension: m.is_extension,
    }
}

/// The row of a method of the module with a number.
pub open spec fn method_row(decl: MethodDeclView, module_id: int) -> MethodRowView {
    MethodRowView { module_id, name_lower: text::lowercase(decl.name), decl }
}

/// The rows of the methods of the module with a number.
pub open spec fn rows_of_methods(methods: Seq<MethodDeclView>, module_id: int) -> Seq<
    MethodRowView,
> {
    Seq::new(methods.len(), |i: int| method_row(methods[i], module_id))
}

/// The rows of the methods of the first `n` modules.
pub open spec fn all_method_rows(modules: Seq<ModuleRecordView>, n: int) -> Seq<MethodRowView>
    decreases n,
{
    if n <= 0 {
        seq![]
    } else {
        all_method_rows(modules, n - 1) + rows_of_methods(modules[n - 1].methods, n)
    }
}

/// The row of the object at the position `i`: rows are numbered from one.
pub open spec fn object_row(objects: Seq<XmlObjectView>, i: int) -> ObjectRowView {
    let o = objects[i];
    ObjectRowView {
        id: i + 1,
        collection: o.collection,
        name: o.name,
        name_lower: text::lowercase(o.name),
        register_type: o.register_type,
    }
}

/// The row of a field of the object with a number.
pub open spec fn field_row(f: object_xml::XmlFieldView, object_id: int) -> FieldRowView {
    FieldRowView {
        object_id,
        name: f.name,
        name_lower: text::lowercase(f.name),
        kind: f.kind.word(),
        indexing: f.indexing,
    }
}

/// The rows of the fields of the object with a number.
pub open spec fn rows_of_fields(fields: Seq<object_xml::XmlFieldView>, object_id: int) -> Seq<
    FieldRowView,
> {
    Seq::new(fields.len(), |i: int| field_row(fields[i], object_id))
}

/// The rows of the fields of the first `n` objects.
pub open spec fn all_field_rows(objects: Seq<XmlObjectView>, n: int) -> Seq<FieldRowView>
    decreases n,
{
    if n <= 0 {
        seq![]
    } else {
        all_field_rows(objects, n - 1) + rows_of_fields(objects[n - 1].fields, n)
    }
}

/// The row of a variable.
pub open spec fn var_row(name: Seq<char>) -> VarRowView {
    VarRowView { name, name_lower: text::lowercase(name) }
}

/// The index of a dump: the modules with their methods, the objects with their fields, and the
/// variables that are seen everywhere.
pub open spec fn tables_of(
    modules: Seq<ModuleRecordView>,
    objects: Seq<XmlObjectView>,
    vars: Seq<Seq<char>>,
) -> LiteIndexView {
    LiteIndexView {
        modules: Seq::new(modules.len(), |i: int| module_row(modules, i)),
        methods: all_method_rows(modules, modules.len() as int),
        objects: Some(Seq::new(objects.len(), |i: int| object_row(objects, i))),
        fields: Some(all_field_rows(objects, objects.len() as int)),
        global_vars: Some(Seq::new(vars.len(), |i: int| var_row(vars[i]))),
    }
}

fn make_module_row(m: &ModuleRecord, id: u64) -> (r: ModuleRow)
    ensures
        r@ == (ModuleRowView {
            id: id as int,
            path: m@.path,
            facts: m@.facts,
            is_global: m@.is_global,
            is_extension: m@.is_extension,
        }),
{
    ModuleRow {
        id,
        path: m.path.as_str().to_string(),
        scope: m.scope.as_str().to_string(),
        collection: copy_opt(&m.collection),
        object_name: copy_opt(&m.object_name),
        module_type: m.module_type.as_str().to_string(),
        is_global: m.is_global,
        is_extension: m.is_extension,
        owner_path: copy_opt(&m.owner_path),
    }
}

fn make_method_row(m: &MethodDecl, module_id: u64) -> (r: MethodRow)
    ensures
        r@ == method_row(m@, module_id as int),
{
    MethodRow {
        module_id,
        name: m.name.as_str().to_string(),
        name_lower: to_lower(m.name.as_str()),
        is_function: m.is_function,
        is_export: m.is_export,
        directive: copy_opt(&m.directive),
        line_start: m.line_start,
        params: m.params.as_str().to_string(),
    }
}

fn make_object_row(o: &XmlObject, id: u64) -> (r: ObjectRow)
    ensures
        r@ == (ObjectRowView {
            id: id as int,
            collection: o@.collection,
            name: o@.name,
            name_lower: text::lowercase(o@.name),
            register_type: o@.register_type,
        }),
{
    ObjectRow {
        id,
        collection: o.collection.as_str().to_string(),
        name: o.name.as_str().to_string(),
        name_lower: to_lower(o.name.as_str()),
        register_type: copy_opt(&o.register_type),
    }
}

fn make_field_row(f: &XmlField, object_id: u64) -> (r: FieldRow)
    ensures
        r@ == field_row(f@, object_id as int),
{
    FieldRow {
        object_id,
        name: f.name.as_str().to_string(),
        name_lower: to_lower(f.name.as_str()),
        kind: f.kind.name().to_string(),
        indexing: copy_opt(&f.indexing),
    }
}

/// Fills the tables with the modules and their methods.
fn fill_modules(modules: &Vec<ModuleRecord>) -> (r: (Vec<ModuleRow>, Vec<MethodRow>))
    ensures
        module_rows(r.0@) == Seq::new(
            modules.len() as nat,
            |i: int| module_row(records::module_views(modules@), i),
        ),
        method_rows(r.1@) == all_method_rows(records::module_views(modules@), modules.len() as int),
{
    let ghost all = records::module_views(modules@);
    let mut rows: Vec<ModuleRow> = Vec::new();
    let mut methods: Vec<MethodRow> = Vec::new();
    assert(method_rows(methods@) =~= seq![]);
    for i in 0..modules.len()
        invariant
            all == records::module_views(modules@),
            rows.len() == i,
            forall|k: int| 0 <= k < i ==> (#[trigger] rows[k])@ == module_row(all, k),
            method_rows(methods@) == all_method_rows(all, i as int),
    {
        let m = &modules[i];
        let id = i as u64 + 1;
        assert(all[i as int] == m@);
        rows.push(make_module_row(m, id));
        let ghost before = method_rows(methods@);
        let ghost mine = rows_of_methods(m@.methods, id as int);
        assert(before =~= before + mine.subrange(0, 0));
        for j in 0..m.methods.len()
            invariant
                m@.methods == records::method_views(m.methods@),
                mine == rows_of_methods(m@.methods, id as int),
                method_rows(methods@) == before + mine.subrange(0, j as int),
        {
            let row = make_method_row(&m.methods[j], id);
            assert(m@.methods[j as int] == m.methods[j as int]@);
            assert(row@ == mine[j as int]);
            let ghost earlier = methods@;
            methods.push(row);
            assert(method_rows(methods@) =~= method_rows(earlier).push(row@));
            assert(mine.subrange(0, j + 1) =~= mine.subrange(0, j as int).push(mine[j as int]));
        }
        assert(mine.subrange(0, m.methods.len() as int) =~= mine);
    }
    (rows, methods)
}

/// Fills the tables with the objects and their fields.
fn fill_objects(objects: &Vec<XmlObject>) -> (r: (Vec<ObjectRow>, Vec<FieldRow>))
    ensures
        object_rows(r.0@) == Seq::new(
            objects.len() as nat,
            |i: int| object_row(records::object_views(objects@), i),
        ),
        field_rows(r.1@) == all_field_rows(records::object_views(objects@), objects.len() as int),
{
    let ghost all = records::object_views(objects@);
    let mut rows: Vec<ObjectRow> = Vec::new();
    let mut fields: Vec<FieldRow> = Vec::new();
    assert(field_rows(fields@) =~= seq![]);
    for i in 0..objects.len()
        invariant
            all == records::object_views(objects@),
            rows.len() == i,
            forall|k: int| 0 <= k < i ==> (#[trigger] rows[k])@ == object_row(all, k),
            field_rows(fields@) == all_field_rows(all, i as int),
    {
        let o = &objects[i];
        let id = i as u64 + 1;
        assert(all[i as int] == o@);
        rows.push(make_object_row(o, id));
        let ghost before = field_rows(fields@);
        let ghost mine = rows_of_fields(o@.fields, id as int);
        assert(before =~= before + mine.subrange(0, 0));
        for j in 0..o.fields.len()
            invariant
                o@.fields == object_xml::field_views(o.fields@),
                mine == rows_of_fields(o@.fields, id as int),
                field_rows(fields@) == before + mine.subrange(0, j as int),
        {
            let row = make_field_row(&o.fields[j], id);
            assert(o@.fields[j as int] == o.fields[j as int]@);
            assert(row@ == mine[j as int]);
            let ghost earlier = fields@;
            fields.push(row);
            assert(field_rows(fields@) =~= field_rows(earlier).push(row@));
            assert(mine.subrange(0, j + 1) =~= mine.subrange(0, j as int).push(mine[j as int]));
        }
        assert(mine.subrange(0, o.fields.len() as int) =~= mine);
    }
    (rows, fields)
}

/// How much an index holds.
#[derive(Debug, Clone, Copy, PartialEq, Eq, Structural)]
pub struct BuildStats {
    pub modules: usize,
    pub methods: usize,
    pub global_modules: usize,
    pub objects: usize,
    pub global_vars: usize,
    pub elapsed_ms: u128,
}

/// How many of the first `n` modules are global.
pub open spec fn global_count(modules: Seq<ModuleRowView>, n: int) -> nat
    decreases n,
{
    if n <= 0 {
        0
    } else {
        global_count(modules, n - 1) + if modules[n - 1].is_global {
            1nat
        } else {
            0
        }
    }
}

/// The index of a dump: what its modules, the descriptions of its objects and the modules of
/// its applications say.
pub fn build(
    modules: &Vec<ModuleRecord>,
    objects: &Vec<XmlObject>,
    vars: &Vec<String>,
) -> (r: LiteIndex)
    ensures
        r@ == tables_of(
            records::module_views(modules@),
            records::object_views(objects@),
            text::texts(vars@),
        ),
{
    let (module_table, method_table) = fill_modules(modules);
    let (object_table, field_table) = fill_objects(objects);
    let mut var_table: Vec<VarRow> = Vec::new();
    let ghost names = text::texts(vars@);
    for i in 0..vars.len()
        invariant
            names == text::texts(vars@),
            var_table.len() == i,
            forall|k: int| 0 <= k < i ==> (#[trigger] var_table[k])@ == var_row(names[k]),
    {
        assert(names[i as int] == vars[i as int]@);
        var_table.push(
            VarRow {
                name: vars[i].as_str().to_string(),
                name_lower: to_lower(vars[i].as_str()),
            },
        );
    }
    let r = LiteIndex {
        modules: module_table,
        methods: method_table,
        objects: Some(object_table),
        fields: Some(field_table),
        global_vars: Some(var_table),
    };
    assert(var_rows(var_table@) =~= Seq::new(names.len(), |i: int| var_row(names[i])));
    r
}

impl LiteIndex {
    /// How much the index holds. A table that it does not have counts as empty.
    pub fn stats(&self, elapsed_ms: u128) -> (r: BuildStats)
        ensures
            r.modules == self@.modules.len(),
            r.methods == self@.methods.len(),
            r.global_modules == global_count(self@.modules, self@.modules.len() as int),
            r.objects == match self@.objects {
                Some(v) => v.len(),
                None => 0,
            },
            r.global_vars == match self@.global_vars {
                Some(v) => v.len(),
                None => 0,
            },
            r.elapsed_ms == elapsed_ms,
    {
        let ghost rows = self@.modules;
        let mut global_modules: usize = 0;
        for i in 0..self.modules.len()
            invariant
                rows == module_rows(self.modules@),
                global_modules <= i,
                global_modules == global_count(rows, i as int),
        {
            assert(rows[i as int] == self.modules[i as int]@);
            if self.modules[i].is_global {
                global_modules += 1;
            }
        }
        BuildStats {
            modules: self.modules.len(),
            methods: self.methods.len(),
            global_modules,
            objects: match &self.objects {
                Some(v) => v.len(),
                None => 0,
            },
            global_vars: match &self.global_vars {
                Some(v) => v.len(),
                None => 0,
            },
            elapsed_ms,
        }
    }
}

} // verus!
