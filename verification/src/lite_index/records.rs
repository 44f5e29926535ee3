//! What is read from one file of a dump.
use super::layout;
use super::layout::{has_fields, known_collection, parse_path};
use super::object_xml;
use super::object_xml::{parse_object_xml, XmlField, XmlFieldView};
use crate::directives;
use crate::directives::is_extension_module;
use crate::paths;
use crate::paths::slash;
use crate::text;
use crate::text::{has_text, holds_text, same_text};
use vstd::prelude::*;

verus! {

/// The declaration of a method.
#[derive(Debug, Clone)]
pub struct MethodDecl {
    pub name: String,
    pub is_function: bool,
    pub is_export: bool,
    /// The directive above the declaration.
    pub directive: Option<String>,
    pub line_start: u64,
    pub params: String,
}

/// The value of a declaration.
pub struct MethodDeclView {
    pub name: Seq<char>,
    pub is_function: bool,
    pub is_export: bool,
    pub directive: Option<Seq<char>>,
    pub line_start: u64,
    pub params: Seq<char>,
}

impl View for MethodDecl {
    type V = MethodDeclView;

    open spec fn view(&self) -> MethodDeclView {
        MethodDeclView {
            name: self.name@,
            is_function: self.is_function,
            is_export: self.is_export,
            directive: text::opt_text(self.directive),
            line_start: self.line_start,
            params: self.params@,
        }
    }
}

pub open spec fn method_views(v: Seq<MethodDecl>) -> Seq<MethodDeclView> {
    v.map_values(|m: MethodDecl| m@)
}

/// A module of the configuration with the methods that it declares.
#[derive(Debug, Clone)]
pub struct ModuleRecord {
    /// The path from the root of the dump, with forward slashes.
    pub path: String,
    pub scope: String,
    pub collection: Option<String>,
    pub object_name: Option<String>,
    pub module_type: String,
    /// The module is a global common module: its exports are called without a prefix.
    pub is_global: bool,
    /// The module belongs to an extension.
    pub is_extension: bool,
    pub owner_path: Option<String>,
    pub methods: Vec<MethodDecl>,
}

/// The value of a module.
pub struct ModuleRecordView {
    pub path: Seq<char>,
    pub facts: layout::ParsedPathView,
    pub is_global: bool,
    pub is_extension: bool,
    pub methods: Seq<MethodDeclView>,
}

impl View for ModuleRecord {
    type V = ModuleRecordView;

    open spec fn view(&self) -> ModuleRecordView {
        ModuleRecordView {
            path: self.path@,
            facts: layout::ParsedPathView {
                scope: self.scope@,
                collection: text::opt_text(self.collection),
                object_name: text::opt_text(self.object_name),
                module_type: self.module_type@,
                owner_path: text::opt_text(self.owner_path),
            },
            is_global: self.is_global,
            is_extension: self.is_extension,
            methods: method_views(self.methods@),
        }
    }
}

pub open spec fn module_views(v: Seq<ModuleRecord>) -> Seq<ModuleRecordView> {
    v.map_values(|m: ModuleRecord| m@)
}

/// The path is that of a common module whose name is among the global ones.
pub open spec fn is_global_path(facts: layout::ParsedPathView, globals: Seq<Seq<char>>) -> bool {
    facts.collection == Some("CommonModules"@) && match facts.object_name {
        Some(name) => globals.contains(name),
        None => false,
    }
}

/// The record of a module: what its path, its text with strings and comments blanked, its
/// methods and the names of the global common modules say.
pub open spec fn module_of(
    path: Seq<char>,
    masked: Seq<char>,
    methods: Seq<MethodDeclView>,
    globals: Seq<Seq<char>>,
) -> ModuleRecordView {
    module_at(path, directives::extension_module(masked), methods, globals)
}

/// The record of a module at a path, of which it is known whether it belongs to an extension.
pub open spec fn module_at(
    path: Seq<char>,
    is_extension: bool,
    methods: Seq<MethodDeclView>,
    globals: Seq<Seq<char>>,
) -> ModuleRecordView {
    let facts = layout::path_facts(paths::slashed(path));
    ModuleRecordView {
        path: paths::slashed(path),
        facts,
        is_global: is_global_path(facts, globals),
        is_extension,
        methods,
    }
}

/// Makes the record of a module.
pub fn module_record(
    rel_path: &str,
    masked: &str,
    methods: Vec<MethodDecl>,
    globals: &Vec<String>,
) -> (r: ModuleRecord)
    ensures
        r@ == module_of(rel_path@, masked@, method_views(methods@), text::texts(globals@)),
{
    record_at(rel_path, is_extension_module(masked), methods, globals)
}

/// Makes the record of a module of which it is known whether it belongs to an extension.
pub fn record_at(
    rel_path: &str,
    is_extension: bool,
    methods: Vec<MethodDecl>,
    globals: &Vec<String>,
) -> (r: ModuleRecord)
    ensures
        r@ == module_at(rel_path@, is_extension, method_views(methods@), text::texts(globals@)),
{
    let path = slash(rel_path);
    let facts = parse_path(path.as_str());
    let common = match &facts.collection {
        Some(c) => same_text(c.as_str(), "CommonModules"),
        None => false,
    };
    let is_global = match &facts.object_name {
        Some(name) => common && holds_text(globals, name.as_str()),
        None => false,
    };
    ModuleRecord {
        path,
        scope: facts.scope,
        collection: facts.collection,
        object_name: facts.object_name,
        module_type: facts.module_type,
        is_global,
        is_extension,
        owner_path: facts.owner_path,
        methods,
    }
}

/// An object of the configuration, with its fields where they were read.
#[derive(Debug, Clone)]
pub struct XmlObject {
    pub collection: String,
    pub name: String,
    /// `Balance` or `Turnovers`, of an accumulation register only.
    pub register_type: Option<String>,
    pub fields: Vec<XmlField>,
}

/// The value of an object.
pub struct XmlObjectView {
    pub collection: Seq<char>,
    pub name: Seq<char>,
    pub register_type: Option<Seq<char>>,
    pub fields: Seq<XmlFieldView>,
}

impl View for XmlObject {
    type V = XmlObjectView;

    open spec fn view(&self) -> XmlObjectView {
        XmlObjectView {
            collection: self.collection@,
            name: self.name@,
            register_type: text::opt_text(self.register_type),
            fields: object_xml::field_views(self.fields@),
        }
    }
}

pub open spec fn object_views(v: Seq<XmlObject>) -> Seq<XmlObjectView> {
    v.map_values(|o: XmlObject| o@)
}

/// Whether the description of an object of a folder has to be read, and not only its name:
/// common modules, because they may be global, and the classes that a query can read.
pub open spec fn is_read(folder: Seq<char>) -> bool {
    match layout::collection_of(folder) {
        Some(c) => c == "CommonModules"@ || layout::collections_with_fields().contains(c),
        None => false,
    }
}

/// Whether the description of an object of a folder has to be read.
pub fn needs_content(folder: &str) -> (r: bool)
    ensures
        r == is_read(folder@),
{
    match known_collection(folder) {
        Some(c) => same_text(c.as_str(), "CommonModules") || has_fields(c.as_str()),
        None => false,
    }
}

/// The object that the file with the given folder, name and description stands for. There is no
/// description where the file was not read or could not be.
pub open spec fn object_of(
    folder: Seq<char>,
    stem: Seq<char>,
    content: Option<Seq<char>>,
) -> Option<XmlObjectView> {
    match layout::collection_of(folder) {
        None => None,
        Some(collection) => {
            let reads = collection != "CommonModules"@
                && layout::collections_with_fields().contains(collection) && content is Some;
            let reading = object_xml::whole_reading(object_xml::xml_events(content->0));
            Some(
                XmlObjectView {
                    collection,
                    name: stem,
                    register_type: if reads {
                        reading.register_type
                    } else {
                        None
                    },
                    fields: if reads {
                        reading.fields
                    } else {
                        seq![]
                    },
                },
            )
        },
    }
}

/// The file describes a global common module.
pub open spec fn describes_global(folder: Seq<char>, content: Option<Seq<char>>) -> bool {
    layout::collection_of(folder) == Some("CommonModules"@) && match content {
        Some(c) => text::holds(c, "<Global>true</Global>"@),
        None => false,
    }
}

/// What the descriptions of a dump say.
#[derive(Debug, Clone)]
pub struct XmlFacts {
    /// The names of the global common modules.
    pub globals: Vec<String>,
    /// The objects, one for each file.
    pub objects: Vec<XmlObject>,
}

impl XmlFacts {
    /// Nothing is read yet.
    pub fn new() -> (r: XmlFacts)
        ensures
            text::texts(r.globals@) == Seq::<Seq<char>>::empty(),
            object_views(r.objects@) == Seq::<XmlObjectView>::empty(),
    {
        let r = XmlFacts { globals: Vec::new(), objects: Vec::new() };
        assert(text::texts(r.globals@) =~= Seq::<Seq<char>>::empty());
        assert(object_views(r.objects@) =~= Seq::<XmlObjectView>::empty());
        r
    }

    /// Takes in one file: its folder, its name without the extension, and its description.
    pub fn take_file(&mut self, folder: &str, stem: &str, content: Option<&str>)
        ensures
            object_views(final(self).objects@) == match object_of(
                folder@,
                stem@,
                text::opt_str(content),
            ) {
                Some(o) => object_views(old(self).objects@).push(o),
                None => object_views(old(self).objects@),
            },
            text::texts(final(self).globals@) == if describes_global(folder@, text::opt_str(content))
                && !text::texts(old(self).globals@).contains(stem@) {
                text::texts(old(self).globals@).push(stem@)
            } else {
                text::texts(old(self).globals@)
            },
    {
        if let Some(collection) = known_collection(folder) {
            let mut register_type: Option<String> = None;
            let mut fields: Vec<XmlField> = Vec::new();
            assert(object_xml::field_views(fields@) =~= seq![]);
            if same_text(collection.as_str(), "CommonModules") {
                if let Some(c) = content {
                    if has_text(c, "<Global>true</Global>") && !holds_text(&self.globals, stem) {
                        let name = stem.to_string();
                        proof {
                            text::lemma_texts_push(self.globals@, name);
                        }
                        self.globals.push(name);
                    }
                }
            } else if has_fields(collection.as_str()) {
                if let Some(c) = content {
                    let parsed = parse_object_xml(c);
                    register_type = parsed.0;
                    fields = parsed.1;
                }
            }
            let object = XmlObject { collection, name: stem.to_string(), register_type, fields };
            let ghost before = self.objects@;
            self.objects.push(object);
            assert(object_views(self.objects@) =~= object_views(before).push(object@));
        }
    }
}

} // verus!
