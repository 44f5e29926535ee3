//! The files of a dump, and the index that they make.
//!
//! Each file is read by itself, in any order; what the files say together is put into the index.
use super::layout;
use super::layout::{
    is_application_module_file, is_description_extension, is_module_extension, is_service_folder,
};
use super::records;
use super::records::{
    needs_content, record_at, MethodDecl, MethodDeclView, ModuleRecord, ModuleRecordView, XmlFacts, XmlObject,
    XmlObjectView,
};
use super::tables;
use super::tables::{build, LiteIndex, LiteIndexView};
use super::variables;
use super::variables::global_export_vars_from_text;
use crate::directives;
use crate::directives::is_extension_module;
use crate::text;
use crate::text::{chars_of, join, text_range};
use vstd::prelude::*;

verus! {

/// What the parser of the language reads in a module.
#[derive(Debug, Clone)]
pub struct ModuleText {
    /// The text with strings and comments blanked.
    pub masked: String,
    pub methods: Vec<MethodDecl>,
}

/// The value of what the parser reads in a module.
pub struct ModuleTextView {
    pub masked: Seq<char>,
    pub methods: Seq<MethodDeclView>,
}

/// A file of a dump.
#[derive(Debug, Clone)]
pub struct DumpFile {
    /// The folders around the file, the root of the dump first.
    pub folders: Vec<String>,
    pub name: String,
    /// The text of the file, where it was read and is one.
    pub text: Option<String>,
    /// What was read of a module; `None` where the file is not one or cannot be read.
    pub module: Option<ModuleText>,
}

/// The value of a file.
pub struct DumpFileView {
    pub folders: Seq<Seq<char>>,
    pub name: Seq<char>,
    pub text: Option<Seq<char>>,
    pub module: Option<ModuleTextView>,
}

impl View for DumpFile {
    type V = DumpFileView;

    open spec fn view(&self) -> DumpFileView {
        DumpFileView {
            folders: text::texts(self.folders@),
            name: self.name@,
            text: text::opt_text(self.text),
            module: match self.module {
                Some(m) => Some(
                    ModuleTextView { masked: m.masked@, methods: records::method_views(m.methods@) },
                ),
                None => None,
            },
        }
    }
}

/// The place of the last dot of a name before the position `n`.
pub open spec fn last_dot(name: Seq<char>, n: int) -> Option<int>
    decreases n,
{
    if n <= 0 {
        None
    } else if name[n - 1] == '.' {
        Some(n - 1)
    } else {
        last_dot(name, n - 1)
    }
}

/// A name without its extension, and the extension: what stands behind the last dot, unless that
/// dot is the first character.
pub open spec fn name_parts(name: Seq<char>) -> (Seq<char>, Option<Seq<char>>) {
    match last_dot(name, name.len() as int) {
        Some(i) => if i > 0 {
            (name.take(i), Some(name.skip(i + 1)))
        } else {
            (name, None)
        },
        None => (name, None),
    }
}

/// The name of a file without its extension, and the extension.
pub fn split_name(name: &str) -> (r: (String, Option<String>))
    ensures
        (r.0@, text::opt_text(r.1)) == name_parts(name@),
{
    let chars = chars_of(name);
    let mut i: usize = chars.len();
    while i > 0 && chars[i - 1] != '.'
        invariant
            chars@ == name@,
            i <= chars.len(),
            last_dot(name@, chars.len() as int) == last_dot(name@, i as int),
        decreases i,
    {
        i -= 1;
    }
    if i > 1 {
        let stem = text_range(&chars, 0, i - 1);
        let extension = text_range(&chars, i, chars.len());
        assert(stem@ =~= name@.take(i - 1));
        assert(extension@ =~= name@.skip(i as int));
        (stem, Some(extension))
    } else {
        (name.to_string(), None)
    }
}

/// A folder around the file is one whose modules are no part of the dump.
pub open spec fn in_service_folder(folders: Seq<Seq<char>>) -> bool {
    exists|i: int| 0 <= i < folders.len() && layout::service_folder(#[trigger] folders[i])
}

fn is_in_service_folder(folders: &Vec<String>) -> (r: bool)
    ensures
        r == in_service_folder(text::texts(folders@)),
{
    let ghost all = text::texts(folders@);
    for i in 0..folders.len()
        invariant
            all == text::texts(folders@),
            forall|k: int| 0 <= k < i ==> !layout::service_folder(#[trigger] all[k]),
    {
        assert(all[i as int] == folders[i as int]@);
        if is_service_folder(folders[i].as_str()) {
            return true;
        }
    }
    false
}

/// The file is a module of the dump.
pub open spec fn is_module(f: DumpFileView) -> bool {
    !in_service_folder(f.folders) && (name_parts(f.name).1 matches Some(e) && text::ascii_same(
        e,
        "bsl"@,
    ))
}

/// The file is a module of the dump that could be read.
pub open spec fn is_read_module(f: DumpFileView) -> bool {
    is_module(f) && f.module is Some
}

/// The file describes an object, or may do so.
pub open spec fn is_description(f: DumpFileView) -> bool {
    f.folders.len() > 0 && (name_parts(f.name).1 matches Some(e) && text::ascii_same(e, "xml"@))
}

/// The file describes an object: it stands directly in a folder of objects.
pub open spec fn describes_object(f: DumpFileView) -> bool {
    is_description(f) && layout::collection_of(f.folders.last()) is Some
}

/// What has to be read of a file.
#[derive(Debug, Clone, Copy, PartialEq, Eq, Structural)]
pub enum Reading {
    /// Its name is enough.
    Nothing,
    /// Its text.
    Text,
    /// A module: its text, and what the parser reads in it.
    Module,
}

/// What has to be read of a file.
pub open spec fn reading_of(f: DumpFileView) -> Reading {
    if is_module(f) {
        Reading::Module
    } else if is_description(f) && records::is_read(f.folders.last()) {
        Reading::Text
    } else {
        Reading::Nothing
    }
}

impl DumpFile {
    /// What has to be read of the file, of which nothing but its place counts.
    pub fn reading(&self) -> (r: Reading)
        ensures
            r == reading_of(self@),
    {
        let (_, extension) = split_name(self.name.as_str());
        if let Some(e) = &extension {
            if is_module_extension(e.as_str()) && !is_in_service_folder(&self.folders) {
                return Reading::Module;
            }
            if self.folders.len() > 0 && is_description_extension(e.as_str()) {
                let folder = self.folders[self.folders.len() - 1].as_str();
                assert(folder@ == self@.folders.last());
                if needs_content(folder) {
                    return Reading::Text;
                }
            }
        }
        Reading::Nothing
    }
}

/// The path of a file from the root of the dump.
pub open spec fn path_below(f: DumpFileView) -> Seq<char> {
    text::joined(
        (if f.folders.len() > 0 {
            f.folders.skip(1)
        } else {
            f.folders
        }).push(f.name),
        "/"@,
    )
}

/// What a module says, as far as it depends on the module alone.
pub struct ModuleFactsView {
    pub path: Seq<char>,
    pub is_extension: bool,
    pub methods: Seq<MethodDeclView>,
}

/// What a module says, as far as it depends on the module alone.
#[derive(Debug, Clone)]
pub struct ModuleFacts {
    pub path: String,
    pub is_extension: bool,
    pub methods: Vec<MethodDecl>,
}

impl View for ModuleFacts {
    type V = ModuleFactsView;

    open spec fn view(&self) -> ModuleFactsView {
        ModuleFactsView {
            path: self.path@,
            is_extension: self.is_extension,
            methods: records::method_views(self.methods@),
        }
    }
}

/// What a file says.
#[derive(Debug, Clone)]
pub struct FileFacts {
    pub module: Option<ModuleFacts>,
    /// The variables that it makes seen everywhere.
    pub vars: Vec<String>,
    /// The object that it describes, and the global common module that it names.
    pub described: XmlFacts,
}

/// The value of what a file says.
#[verifier::ext_equal]
pub struct FileFactsView {
    pub module: Option<ModuleFactsView>,
    pub vars: Seq<Seq<char>>,
    pub objects: Seq<XmlObjectView>,
    pub globals: Seq<Seq<char>>,
}

impl View for FileFacts {
    type V = FileFactsView;

    open spec fn view(&self) -> FileFactsView {
        FileFactsView {
            module: match self.module {
                Some(m) => Some(m@),
                None => None,
            },
            vars: text::texts(self.vars@),
            objects: records::object_views(self.described.objects@),
            globals: text::texts(self.described.globals@),
        }
    }
}

/// What a file says: a module its methods, a module of an application its exported variables,
/// and a description its object.
pub open spec fn facts_of(f: DumpFileView) -> FileFactsView {
    let stem = name_parts(f.name).0;
    let object = records::object_of(f.folders.last(), stem, f.text);
    FileFactsView {
        module: if is_read_module(f) {
            Some(
                ModuleFactsView {
                    path: path_below(f),
                    is_extension: directives::extension_module(f.module->0.masked),
                    methods: f.module->0.methods,
                },
            )
        } else {
            None
        },
        vars: if is_module(f) && layout::application_module(f.name) && f.text is Some {
            variables::exported_vars(f.text->0)
        } else {
            seq![]
        },
        objects: if is_description(f) && object is Some {
            seq![object->0]
        } else {
            seq![]
        },
        globals: if is_description(f) && records::describes_global(f.folders.last(), f.text) {
            seq![stem]
        } else {
            seq![]
        },
    }
}

fn read_path(folders: &Vec<String>, name: &str) -> (r: String)
    ensures
        r@ == text::joined(
            (if folders.len() > 0 {
                text::texts(folders@).skip(1)
            } else {
                text::texts(folders@)
            }).push(name@),
            "/"@,
        ),
{
    let ghost all = text::texts(folders@);
    let mut parts: Vec<String> = Vec::new();
    let mut i: usize = 1;
    while i < folders.len()
        invariant
            all == text::texts(folders@),
            1 <= i,
            i <= folders.len() || i == 1,
            parts.len() == i - 1,
            forall|k: int| 0 <= k < parts.len() ==> (#[trigger] parts[k])@ == all[k + 1],
        decreases folders.len() - i,
    {
        assert(all[i as int] == folders[i as int]@);
        parts.push(folders[i].as_str().to_string());
        i += 1;
    }
    parts.push(name.to_string());
    assert(text::texts(parts@) =~= (if folders.len() > 0 {
        all.skip(1)
    } else {
        all
    }).push(name@));
    join(&parts, "/")
}

/// What a file says.
pub fn read_file(file: DumpFile) -> (r: FileFacts)
    ensures
        r@ == facts_of(file@),
{
    let ghost f = file@;
    let (stem, extension) = split_name(file.name.as_str());
    let mut facts = FileFacts { module: None, vars: Vec::new(), described: XmlFacts::new() };
    assert(text::texts(facts.vars@) =~= seq![]);
    if let Some(e) = &extension {
        if is_module_extension(e.as_str()) && !is_in_service_folder(&file.folders) {
            if is_application_module_file(file.name.as_str()) {
                if let Some(t) = &file.text {
                    facts.vars = global_export_vars_from_text(t.as_str());
                }
            }
            let path = read_path(&file.folders, file.name.as_str());
            if let Some(m) = file.module {
                facts.module = Some(
                    ModuleFacts {
                        path,
                        is_extension: is_extension_module(m.masked.as_str()),
                        methods: m.methods,
                    },
                );
            }
        }
        if file.folders.len() > 0 && is_description_extension(e.as_str()) {
            let folder = file.folders[file.folders.len() - 1].as_str();
            assert(folder@ == f.folders.last());
            let content = match &file.text {
                Some(t) => Some(t.as_str()),
                None => None,
            };
            facts.described.take_file(folder, stem.as_str(), content);
            assert(seq![].push(stem@) =~= seq![stem@]);
        }
    }
    assert(facts@ =~= facts_of(f));
    facts
}

/// The names of the global common modules that the first `n` files give.
pub open spec fn globals_upto(all: Seq<FileFactsView>, n: int) -> Seq<Seq<char>>
    decreases n,
{
    if n <= 0 {
        seq![]
    } else {
        globals_upto(all, n - 1) + all[n - 1].globals
    }
}

/// The objects that the first `n` files describe.
pub open spec fn objects_upto(all: Seq<FileFactsView>, n: int) -> Seq<XmlObjectView>
    decreases n,
{
    if n <= 0 {
        seq![]
    } else {
        objects_upto(all, n - 1) + all[n - 1].objects
    }
}

/// The variables that the first `n` files make seen everywhere.
pub open spec fn vars_upto(all: Seq<FileFactsView>, n: int) -> Seq<Seq<char>>
    decreases n,
{
    if n <= 0 {
        seq![]
    } else {
        vars_upto(all, n - 1) + all[n - 1].vars
    }
}

/// The modules among the first `n` files, given the names of the global common modules.
pub open spec fn modules_upto(all: Seq<FileFactsView>, globals: Seq<Seq<char>>, n: int) -> Seq<
    ModuleRecordView,
>
    decreases n,
{
    if n <= 0 {
        seq![]
    } else {
        match all[n - 1].module {
            Some(m) => modules_upto(all, globals, n - 1).push(
                records::module_at(m.path, m.is_extension, m.methods, globals),
            ),
            None => modules_upto(all, globals, n - 1),
        }
    }
}

/// The index of what the files of a dump say.
pub open spec fn index_of(all: Seq<FileFactsView>) -> LiteIndexView {
    let n = all.len() as int;
    tables::tables_of(
        modules_upto(all, globals_upto(all, n), n),
        objects_upto(all, n),
        vars_upto(all, n),
    )
}

/// The values of what files say.
pub open spec fn facts_views(v: Seq<FileFacts>) -> Seq<FileFactsView> {
    v.map_values(|f: FileFacts| f@)
}

fn collect_globals(facts: &Vec<FileFacts>) -> (r: Vec<String>)
    ensures
        text::texts(r@) == globals_upto(facts_views(facts@), facts.len() as int),
{
    let ghost all = facts_views(facts@);
    let mut out: Vec<String> = Vec::new();
    assert(text::texts(out@) =~= seq![]);
    for i in 0..facts.len()
        invariant
            all == facts_views(facts@),
            text::texts(out@) == globals_upto(all, i as int),
    {
        assert(all[i as int] == facts[i as int]@);
        let mut more = text::copy_texts(&facts[i].described.globals);
        let ghost before = out@;
        let ghost added = more@;
        out.append(&mut more);
        assert(text::texts(out@) =~= text::texts(before) + text::texts(added));
    }
    out
}

/// The index of what the files of a dump say.
pub fn index_of_files(facts: Vec<FileFacts>) -> (r: LiteIndex)
    ensures
        r@ == index_of(facts_views(facts@)),
{
    let globals = collect_globals(&facts);
    let ghost held = facts@;
    let ghost all = facts_views(facts@);
    let ghost names = text::texts(globals@);
    let mut modules: Vec<ModuleRecord> = Vec::new();
    let mut objects: Vec<XmlObject> = Vec::new();
    let mut vars: Vec<String> = Vec::new();
    assert(records::module_views(modules@) =~= seq![]);
    assert(records::object_views(objects@) =~= seq![]);
    assert(text::texts(vars@) =~= seq![]);
    for f in it: facts
        invariant
            it.seq() == held,
            all == facts_views(held),
            names == text::texts(globals@),
            records::module_views(modules@) == modules_upto(all, names, it.index()),
            records::object_views(objects@) == objects_upto(all, it.index()),
            text::texts(vars@) == vars_upto(all, it.index()),
    {
        let ghost i = it.index();
        assert(held[i] == f);
        assert(all[i] == f@);
        let ghost old_modules = modules@;
        let ghost old_objects = objects@;
        let ghost old_vars = vars@;
        let ghost more_objects = f.described.objects@;
        let ghost more_vars = f.vars@;
        if let Some(m) = f.module {
            let record = record_at(m.path.as_str(), m.is_extension, m.methods, &globals);
            modules.push(record);
            assert(records::module_views(modules@) =~= records::module_views(old_modules).push(record@));
        }
        let mut described = f.described.objects;
        objects.append(&mut described);
        assert(records::object_views(objects@) =~= records::object_views(old_objects)
            + records::object_views(more_objects));
        let mut exported = f.vars;
        vars.append(&mut exported);
        assert(text::texts(vars@) =~= text::texts(old_vars) + text::texts(more_vars));
    }
    build(&modules, &objects, &vars)
}

/// How many of the first `n` files are of a sort.
pub open spec fn count_files(files: Seq<DumpFileView>, sort: spec_fn(DumpFileView) -> bool, n: int) -> nat
    decreases n,
{
    if n <= 0 {
        0
    } else {
        count_files(files, sort, n - 1) + if sort(files[n - 1]) {
            1nat
        } else {
            0
        }
    }
}

/// What the files of a dump say.
pub open spec fn all_facts(files: Seq<DumpFileView>) -> Seq<FileFactsView> {
    files.map_values(|f: DumpFileView| facts_of(f))
}

/// The file describes the global common module with a name.
pub open spec fn makes_global(f: DumpFileView, name: Seq<char>) -> bool {
    is_description(f) && records::describes_global(f.folders.last(), f.text) && name_parts(f.name).0
        == name
}

/// The file is a module of a common module that some description calls global.
pub open spec fn is_global_module(files: Seq<DumpFileView>, f: DumpFileView) -> bool {
    let facts = layout::path_facts(crate::paths::slashed(path_below(f)));
    &&& is_read_module(f)
    &&& facts.collection == Some("CommonModules"@)
    &&& facts.object_name matches Some(name) && exists|k: int|
        0 <= k < files.len() && makes_global(#[trigger] files[k], name)
}

proof fn lemma_globals(files: Seq<DumpFileView>, n: int, name: Seq<char>)
    requires
        0 <= n <= files.len(),
    ensures
        globals_upto(all_facts(files), n).contains(name) <==> exists|k: int|
            0 <= k < n && makes_global(#[trigger] files[k], name),
    decreases n,
{
    if n > 0 {
        lemma_globals(files, n - 1, name);
        let all = all_facts(files);
        let before = globals_upto(all, n - 1);
        let one = all[n - 1].globals;
        let whole = globals_upto(all, n);
        assert(one == facts_of(files[n - 1]).globals);
        assert(one.contains(name) <==> makes_global(files[n - 1], name)) by {
            if makes_global(files[n - 1], name) {
                assert(one[0] == name);
            }
        }
        if whole.contains(name) {
            let j = choose|j: int| 0 <= j < whole.len() && whole[j] == name;
            if j < before.len() {
                assert(before[j] == name);
            } else {
                assert(one[j - before.len()] == name);
            }
        }
        if before.contains(name) {
            let j = choose|j: int| 0 <= j < before.len() && before[j] == name;
            assert(whole[j] == name);
        }
        if one.contains(name) {
            let j = choose|j: int| 0 <= j < one.len() && one[j] == name;
            assert(whole[before.len() + j] == name);
        }
    }
}

proof fn lemma_counts(files: Seq<DumpFileView>, n: int)
    requires
        0 <= n <= files.len(),
    ensures
        ({
            let all = all_facts(files);
            let globals = globals_upto(all, files.len() as int);
            let modules = modules_upto(all, globals, n);
            &&& modules.len() == count_files(files, |f: DumpFileView| is_read_module(f), n)
            &&& objects_upto(all, n).len() == count_files(
                files,
                |f: DumpFileView| describes_object(f),
                n,
            )
            &&& global_modules(modules, modules.len() as int) == count_files(
                files,
                |f: DumpFileView| is_global_module(files, f),
                n,
            )
        }),
    decreases n,
{
    if n > 0 {
        lemma_counts(files, n - 1);
        let all = all_facts(files);
        let globals = globals_upto(all, files.len() as int);
        let f = files[n - 1];
        assert(all[n - 1] == facts_of(f));
        let before = modules_upto(all, globals, n - 1);
        let modules = modules_upto(all, globals, n);
        let facts = layout::path_facts(crate::paths::slashed(path_below(f)));
        if facts.object_name is Some {
            lemma_globals(files, files.len() as int, facts.object_name->0);
        }
        if is_read_module(f) {
            lemma_global_modules(before, modules, before.len() as int);
        }
    }
}

/// How many of the first `n` modules are global.
spec fn global_modules(modules: Seq<ModuleRecordView>, n: int) -> nat
    decreases n,
{
    if n <= 0 {
        0
    } else {
        global_modules(modules, n - 1) + if modules[n - 1].is_global {
            1nat
        } else {
            0
        }
    }
}

proof fn lemma_global_modules(a: Seq<ModuleRecordView>, b: Seq<ModuleRecordView>, n: int)
    requires
        0 <= n <= a.len() <= b.len(),
        forall|k: int| 0 <= k < n ==> a[k] == #[trigger] b[k],
    ensures
        global_modules(a, n) == global_modules(b, n),
    decreases n,
{
    if n > 0 {
        lemma_global_modules(a, b, n - 1);
        assert(a[n - 1] == b[n - 1]);
    }
}

proof fn lemma_global_rows(
    modules: Seq<ModuleRecordView>,
    rows: Seq<tables::ModuleRowView>,
    n: int,
)
    requires
        0 <= n <= modules.len() == rows.len(),
        forall|k: int| 0 <= k < n ==> #[trigger] rows[k] == tables::module_row(modules, k),
    ensures
        tables::global_count(rows, n) == global_modules(modules, n),
    decreases n,
{
    if n > 0 {
        lemma_global_rows(modules, rows, n - 1);
        assert(rows[n - 1] == tables::module_row(modules, n - 1));
    }
}

/// The index of a dump counts its files. There is a row for each module outside the service
/// folders that could be read, and for each description that stands directly in a folder of
/// objects, whether the object has a module or not. A module is a global one exactly where it is
/// that of a common module whose description says so. The index depends on the files alone.
pub proof fn law_index_counts_the_files(files: Seq<DumpFileView>)
    ensures
        ({
            let ix = index_of(all_facts(files));
            let n = files.len() as int;
            &&& ix.modules.len() == count_files(files, |f: DumpFileView| is_read_module(f), n)
            &&& ix.objects matches Some(objects) && objects.len() == count_files(
                files,
                |f: DumpFileView| describes_object(f),
                n,
            )
            &&& tables::global_count(ix.modules, ix.modules.len() as int) == count_files(
                files,
                |f: DumpFileView| is_global_module(files, f),
                n,
            )
        }),
{
    let all = all_facts(files);
    let n = files.len() as int;
    lemma_counts(files, n);
    let modules = modules_upto(all, globals_upto(all, n), n);
    let ix = index_of(all);
    lemma_global_rows(modules, ix.modules, modules.len() as int);
}

/// Of a file whose name is enough, nothing that may stand in it counts.
pub proof fn law_name_is_enough(f: DumpFileView, g: DumpFileView)
    requires
        f.folders == g.folders,
        f.name == g.name,
        reading_of(f) == Reading::Nothing,
    ensures
        facts_of(f) == facts_of(g),
{
    assert(facts_of(f) =~= facts_of(g));
}

proof fn lemma_last_dot(name: Seq<char>, n: int, i: int)
    requires
        -1 <= i < n <= name.len() || (i == -1 && n == 0),
        forall|k: int| i < k < n ==> #[trigger] name[k] != '.',
        i >= 0 ==> name[i] == '.',
    ensures
        last_dot(name, n) == (if i >= 0 {
            Some(i)
        } else {
            None
        }),
    decreases n,
{
    if n > 0 && n - 1 > i {
        assert(name[n - 1] != '.');
        lemma_last_dot(name, n - 1, i);
    }
}

/// The end of a file name is what stands behind its last dot, and its stem is what stands before
/// it; a name without a dot, or with one at its beginning only, has no end.
pub proof fn law_end_of_a_file_name(stem: Seq<char>, end: Seq<char>)
    requires
        forall|k: int| 0 <= k < end.len() ==> #[trigger] end[k] != '.',
    ensures
        stem.len() > 0 ==> name_parts(stem.push('.') + end) == (stem, Some(end)),
        name_parts(end) == (end, None::<Seq<char>>),
        name_parts(seq!['.'] + end) == (seq!['.'] + end, None::<Seq<char>>),
{
    let name = stem.push('.') + end;
    let i = stem.len() as int;
    assert(name[i] == '.');
    assert forall|k: int| i < k < name.len() implies #[trigger] name[k] != '.' by {
        assert(name[k] == end[k - i - 1]);
    }
    lemma_last_dot(name, name.len() as int, i);
    assert(name.take(i) =~= stem);
    assert(name.skip(i + 1) =~= end);
    lemma_last_dot(end, end.len() as int, -1);
    let dotted = seq!['.'] + end;
    assert forall|k: int| 0 < k < dotted.len() implies #[trigger] dotted[k] != '.' by {
        assert(dotted[k] == end[k - 1]);
    }
    lemma_last_dot(dotted, dotted.len() as int, 0);
}

/// A file in a folder of a service holds no module, wherever that folder stands above it, and says
/// nothing of variables. Elsewhere a module that was read is one of the index, at its path below
/// the folder of the dump.
pub proof fn law_service_folders_hold_no_modules(f: DumpFileView, i: int)
    ensures
        0 <= i < f.folders.len() && (f.folders[i] == ".git"@ || f.folders[i] == ".code-index"@) ==> facts_of(
            f,
        ).module is None && facts_of(f).vars.len() == 0,
        facts_of(f).module is Some ==> (f.module matches Some(m) && facts_of(f).module->0.methods == m.methods
            && facts_of(f).module->0.path == path_below(f) && facts_of(f).module->0.is_extension
            == directives::extension_module(m.masked)),
{
}

proof fn lemma_collected(all: Seq<FileFactsView>, n: int, x: Seq<char>)
    requires
        0 <= n <= all.len(),
    ensures
        globals_upto(all, n).contains(x) <==> exists|i: int| 0 <= i < n && (#[trigger] all[i]).globals.contains(x),
        vars_upto(all, n).contains(x) <==> exists|i: int| 0 <= i < n && (#[trigger] all[i]).vars.contains(x),
    decreases n,
{
    if n > 0 {
        lemma_collected(all, n - 1, x);
        lemma_in_either(globals_upto(all, n - 1), all[n - 1].globals, x);
        lemma_in_either(vars_upto(all, n - 1), all[n - 1].vars, x);
    }
}

proof fn lemma_in_either<A>(a: Seq<A>, b: Seq<A>, x: A)
    ensures
        (a + b).contains(x) <==> a.contains(x) || b.contains(x),
{
    if a.contains(x) {
        let k = choose|k: int| 0 <= k < a.len() && a[k] == x;
        assert((a + b)[k] == x);
    }
    if b.contains(x) {
        let k = choose|k: int| 0 <= k < b.len() && b[k] == x;
        assert((a + b)[a.len() + k] == x);
    }
    if (a + b).contains(x) {
        let k = choose|k: int| 0 <= k < (a + b).len() && (a + b)[k] == x;
        if k < a.len() {
            assert(a[k] == x);
        } else {
            assert(b[k - a.len()] == x);
        }
    }
}

proof fn lemma_objects_collected(all: Seq<FileFactsView>, n: int, x: XmlObjectView)
    requires
        0 <= n <= all.len(),
    ensures
        objects_upto(all, n).contains(x) <==> exists|i: int| 0 <= i < n && (#[trigger] all[i]).objects.contains(x),
    decreases n,
{
    if n > 0 {
        lemma_objects_collected(all, n - 1, x);
        lemma_in_either(objects_upto(all, n - 1), all[n - 1].objects, x);
    }
}

/// What the files of a dump say is put together without loss: a name of a global module, an
/// exported variable and a described object stand in the whole exactly where some file says them.
pub proof fn law_every_file_of_a_dump_counts(all: Seq<FileFactsView>, name: Seq<char>, object: XmlObjectView)
    ensures
        globals_upto(all, all.len() as int).contains(name) <==> exists|i: int|
            0 <= i < all.len() && (#[trigger] all[i]).globals.contains(name),
        vars_upto(all, all.len() as int).contains(name) <==> exists|i: int|
            0 <= i < all.len() && (#[trigger] all[i]).vars.contains(name),
        objects_upto(all, all.len() as int).contains(object) <==> exists|i: int|
            0 <= i < all.len() && (#[trigger] all[i]).objects.contains(object),
{
    lemma_collected(all, all.len() as int, name);
    lemma_objects_collected(all, all.len() as int, object);
}

} // verus!
