//! Where the files of a dump lie, and what their paths say.
use crate::text;
use crate::text::{has_text, same_ascii, same_text, split, to_lower};
use vstd::prelude::*;

verus! {

/// The folders that hold the objects of one class each.
pub open spec fn collections() -> Seq<Seq<char>> {
    seq![
        "CommonModules"@,
        "Documents"@,
        "Catalogs"@,
        "InformationRegisters"@,
        "AccumulationRegisters"@,
        "AccountingRegisters"@,
        "CalculationRegisters"@,
        "Reports"@,
        "DataProcessors"@,
        "ChartsOfAccounts"@,
        "ChartsOfCharacteristicTypes"@,
        "ChartsOfCalculationTypes"@,
        "BusinessProcesses"@,
        "Tasks"@,
        "ExchangePlans"@,
        "Constants"@,
        "DocumentJournals"@,
        "Enums"@,
        "CommonForms"@,
        "WebServices"@,
        "HTTPServices"@,
        "SettingsStorages"@,
        "FilterCriteria"@,
        "ScheduledJobs"@,
        "Sequences"@,
        "ExternalDataSources"@,
    ]
}

fn collection_list() -> (r: Vec<String>)
    ensures
        text::texts(r@) == collections(),
{
    let r: Vec<String> = vec![
        "CommonModules".to_owned(),
        "Documents".to_owned(),
        "Catalogs".to_owned(),
        "InformationRegisters".to_owned(),
        "AccumulationRegisters".to_owned(),
        "AccountingRegisters".to_owned(),
        "CalculationRegisters".to_owned(),
        "Reports".to_owned(),
        "DataProcessors".to_owned(),
        "ChartsOfAccounts".to_owned(),
        "ChartsOfCharacteristicTypes".to_owned(),
        "ChartsOfCalculationTypes".to_owned(),
        "BusinessProcesses".to_owned(),
        "Tasks".to_owned(),
        "ExchangePlans".to_owned(),
        "Constants".to_owned(),
        "DocumentJournals".to_owned(),
        "Enums".to_owned(),
        "CommonForms".to_owned(),
        "WebServices".to_owned(),
        "HTTPServices".to_owned(),
        "SettingsStorages".to_owned(),
        "FilterCriteria".to_owned(),
        "ScheduledJobs".to_owned(),
        "Sequences".to_owned(),
        "ExternalDataSources".to_owned(),
    ];
    assert(text::texts(r@) =~= collections());
    r
}

/// The folders whose objects a query can read, so that their fields are of interest.
pub open spec fn collections_with_fields() -> Seq<Seq<char>> {
    seq![
        "Catalogs"@,
        "Documents"@,
        "InformationRegisters"@,
        "AccumulationRegisters"@,
        "AccountingRegisters"@,
        "CalculationRegisters"@,
        "ChartsOfCharacteristicTypes"@,
        "ChartsOfAccounts"@,
        "ChartsOfCalculationTypes"@,
        "BusinessProcesses"@,
        "Tasks"@,
        "ExchangePlans"@,
        "DocumentJournals"@,
    ]
}

fn collection_with_fields_list() -> (r: Vec<String>)
    ensures
        text::texts(r@) == collections_with_fields(),
{
    let r: Vec<String> = vec![
        "Catalogs".to_owned(),
        "Documents".to_owned(),
        "InformationRegisters".to_owned(),
        "AccumulationRegisters".to_owned(),
        "AccountingRegisters".to_owned(),
        "CalculationRegisters".to_owned(),
        "ChartsOfCharacteristicTypes".to_owned(),
        "ChartsOfAccounts".to_owned(),
        "ChartsOfCalculationTypes".to_owned(),
        "BusinessProcesses".to_owned(),
        "Tasks".to_owned(),
        "ExchangePlans".to_owned(),
        "DocumentJournals".to_owned(),
    ];
    assert(text::texts(r@) =~= collections_with_fields());
    r
}

/// The files whose exported variables are seen everywhere.
pub open spec fn application_modules() -> Seq<Seq<char>> {
    seq![
        "ManagedApplicationModule.bsl"@,
        "OrdinaryApplicationModule.bsl"@,
        "SessionModule.bsl"@,
        "ExternalConnectionModule.bsl"@,
    ]
}

fn application_module_list() -> (r: Vec<String>)
    ensures
        text::texts(r@) == application_modules(),
{
    let r: Vec<String> = vec![
        "ManagedApplicationModule.bsl".to_owned(),
        "OrdinaryApplicationModule.bsl".to_owned(),
        "SessionModule.bsl".to_owned(),
        "ExternalConnectionModule.bsl".to_owned(),
    ];
    assert(text::texts(r@) =~= application_modules());
    r
}

/// The first text of a list, from the position `i` on, that is `s` but for the case of ASCII
/// letters.
pub open spec fn listed_from(list: Seq<Seq<char>>, s: Seq<char>, i: int) -> Option<Seq<char>>
    decreases list.len() - i,
{
    if i < 0 || i >= list.len() {
        None
    } else if text::ascii_same(list[i], s) {
        Some(list[i])
    } else {
        listed_from(list, s, i + 1)
    }
}

/// The first text of a list that is `s` but for the case of ASCII letters.
pub open spec fn listed(list: Seq<Seq<char>>, s: Seq<char>) -> Option<Seq<char>> {
    listed_from(list, s, 0)
}

fn find_listed(list: &Vec<String>, s: &str) -> (r: Option<String>)
    ensures
        text::opt_text(r) == listed(text::texts(list@), s@),
{
    let ghost all = text::texts(list@);
    let mut i: usize = 0;
    while i < list.len()
        invariant
            all == text::texts(list@),
            i <= list.len(),
            listed(all, s@) == listed_from(all, s@, i as int),
        decreases list.len() - i,
    {
        assert(all[i as int] == list[i as int]@);
        if same_ascii(list[i].as_str(), s) {
            return Some(list[i].as_str().to_string());
        }
        i += 1;
    }
    None
}

/// The name of the class of objects that a folder holds, whatever the letter case of the folder.
pub open spec fn collection_of(folder: Seq<char>) -> Option<Seq<char>> {
    listed(collections(), folder)
}

/// The name of the class of objects that a folder holds.
pub fn known_collection(folder: &str) -> (r: Option<String>)
    ensures
        text::opt_text(r) == collection_of(folder@),
{
    let list = collection_list();
    find_listed(&list, folder)
}

/// Whether the fields of the objects of a class are of interest.
pub fn has_fields(collection: &str) -> (r: bool)
    ensures
        r == collections_with_fields().contains(collection@),
{
    let list = collection_with_fields_list();
    text::holds_text(&list, collection)
}

/// A folder whose modules are no part of the dump.
pub open spec fn service_folder(name: Seq<char>) -> bool {
    name == ".code-index"@ || name == ".git"@
}

/// Whether the modules of a folder are no part of the dump.
pub fn is_service_folder(name: &str) -> (r: bool)
    ensures
        r == service_folder(name@),
{
    same_text(name, ".code-index") || same_text(name, ".git")
}

/// Whether a file with the extension holds a module.
pub fn is_module_extension(extension: &str) -> (r: bool)
    ensures
        r == text::ascii_same(extension@, "bsl"@),
{
    same_ascii(extension, "bsl")
}

/// Whether a file with the extension holds the description of an object.
pub fn is_description_extension(extension: &str) -> (r: bool)
    ensures
        r == text::ascii_same(extension@, "xml"@),
{
    same_ascii(extension, "xml")
}

/// A file is the module of an application.
pub open spec fn application_module(file_name: Seq<char>) -> bool {
    listed(application_modules(), file_name) is Some
}

/// Whether a file is the module of an application, whose exported variables are seen everywhere.
pub fn is_application_module_file(file_name: &str) -> (r: bool)
    ensures
        r == application_module(file_name@),
{
    let list = application_module_list();
    find_listed(&list, file_name).is_some()
}

/// The module that owns the module of a plain form of an external data processor.
pub open spec fn owner_of(path: Seq<char>) -> Option<Seq<char>> {
    let p = text::parts(path, '/');
    if p.len() == 5 && text::ascii_same(p[0], "external"@) && text::ascii_same(p[2], "Form"@)
        && text::ascii_same(p[4], "Form.obj.bsl"@) {
        Some(p[0] + "/"@ + p[1] + "/ExternalDataProcessor.obj.bsl"@)
    } else {
        None
    }
}

/// The module that owns the module of a plain form of an external data processor:
/// `external/<processor>/ExternalDataProcessor.obj.bsl` for
/// `external/<processor>/Form/<name>/Form.obj.bsl`, and nothing for any other path.
pub fn owner_module_path(rel_path: &str) -> (r: Option<String>)
    ensures
        text::opt_text(r) == owner_of(rel_path@),
{
    let p = split(rel_path, '/');
    let ghost all = text::texts(p@);
    if p.len() == 5 {
        assert(all[0] == p[0]@ && all[2] == p[2]@ && all[4] == p[4]@);
        if same_ascii(p[0].as_str(), "external") && same_ascii(p[2].as_str(), "Form") && same_ascii(
            p[4].as_str(),
            "Form.obj.bsl",
        ) {
            assert(all[1] == p[1]@);
            let mut owner = p[0].as_str().to_string();
            owner.append("/");
            owner.append(p[1].as_str());
            owner.append("/ExternalDataProcessor.obj.bsl");
            return Some(owner);
        }
    }
    None
}

/// What the path of a module says of it.
#[derive(Debug, Clone)]
pub struct ParsedPath {
    /// `base`, `extensions`, `external` or `other`.
    pub scope: String,
    /// The class of the object that the module belongs to.
    pub collection: Option<String>,
    pub object_name: Option<String>,
    /// The kind of the module.
    pub module_type: String,
    /// The module that owns this one.
    pub owner_path: Option<String>,
}

/// The value of what a path says.
pub struct ParsedPathView {
    pub scope: Seq<char>,
    pub collection: Option<Seq<char>>,
    pub object_name: Option<Seq<char>>,
    pub module_type: Seq<char>,
    pub owner_path: Option<Seq<char>>,
}

impl View for ParsedPath {
    type V = ParsedPathView;

    open spec fn view(&self) -> ParsedPathView {
        ParsedPathView {
            scope: self.scope@,
            collection: text::opt_text(self.collection),
            object_name: text::opt_text(self.object_name),
            module_type: self.module_type@,
            owner_path: text::opt_text(self.owner_path),
        }
    }
}

/// The part of a dump that a path leads to, by its first folder.
pub open spec fn scope_of(first: Seq<char>) -> Seq<char> {
    let low = text::lowercase(first);
    if low == "base"@ {
        "base"@
    } else if low == "extensions"@ {
        "extensions"@
    } else if low == "external"@ {
        "external"@
    } else {
        "other"@
    }
}

fn scope_name(first: &str) -> (r: String)
    ensures
        r@ == scope_of(first@),
{
    let low = to_lower(first);
    if same_text(low.as_str(), "base") {
        "base".to_string()
    } else if same_text(low.as_str(), "extensions") {
        "extensions".to_string()
    } else if same_text(low.as_str(), "external") {
        "external".to_string()
    } else {
        "other".to_string()
    }
}

/// The position, from `i` on, of the first folder that holds the objects of a class.
pub open spec fn collection_at(p: Seq<Seq<char>>, i: int) -> Option<int>
    decreases p.len() - i,
{
    if i < 0 || i >= p.len() {
        None
    } else if collection_of(p[i]) is Some {
        Some(i)
    } else {
        collection_at(p, i + 1)
    }
}

/// The kind of a module, by its file name.
pub open spec fn type_of_file(name: Seq<char>) -> Seq<char> {
    if text::ascii_same("Module.bsl"@, name) {
        "Module"@
    } else if text::ascii_same("ManagerModule.bsl"@, name) {
        "ManagerModule"@
    } else if text::ascii_same("ObjectModule.bsl"@, name) {
        "ObjectModule"@
    } else if text::ascii_same("RecordSetModule.bsl"@, name) {
        "RecordSetModule"@
    } else if text::ascii_same("ValueManagerModule.bsl"@, name) {
        "ValueManagerModule"@
    } else if text::ascii_same("RecalculationModule.bsl"@, name) {
        "RecalculationModule"@
    } else if text::ascii_same("CommandModule.bsl"@, name) {
        "CommandModule"@
    } else {
        "Other"@
    }
}

fn file_type(name: &str) -> (r: String)
    ensures
        r@ == type_of_file(name@),
{
    if same_ascii("Module.bsl", name) {
        "Module".to_string()
    } else if same_ascii("ManagerModule.bsl", name) {
        "ManagerModule".to_string()
    } else if same_ascii("ObjectModule.bsl", name) {
        "ObjectModule".to_string()
    } else if same_ascii("RecordSetModule.bsl", name) {
        "RecordSetModule".to_string()
    } else if same_ascii("ValueManagerModule.bsl", name) {
        "ValueManagerModule".to_string()
    } else if same_ascii("RecalculationModule.bsl", name) {
        "RecalculationModule".to_string()
    } else if same_ascii("CommandModule.bsl", name) {
        "CommandModule".to_string()
    } else {
        "Other".to_string()
    }
}

/// What the path of a module says. A module below a folder of forms is the module of a form,
/// whatever the name of its file.
pub open spec fn path_facts(path: Seq<char>) -> ParsedPathView {
    let p = text::parts(path, '/');
    let at = collection_at(p, 0);
    ParsedPathView {
        scope: scope_of(p[0]),
        collection: match at {
            Some(i) => collection_of(p[i]),
            None => None,
        },
        object_name: match at {
            Some(i) => if i + 1 < p.len() {
                Some(p[i + 1])
            } else {
                None
            },
            None => None,
        },
        module_type: if text::holds(path, "/Forms/"@) || text::holds(path, "/Form/"@) {
            "Form"@
        } else {
            type_of_file(p.last())
        },
        owner_path: owner_of(path),
    }
}

/// What the path of a module says.
pub fn parse_path(rel_path: &str) -> (r: ParsedPath)
    ensures
        r@ == path_facts(rel_path@),
{
    let p = split(rel_path, '/');
    let ghost all = text::parts(rel_path@, '/');
    let mut collection: Option<String> = None;
    let mut object_name: Option<String> = None;
    let mut i: usize = 0;
    while i < p.len()
        invariant_except_break
            collection is None,
            object_name is None,
            collection_at(all, 0) == collection_at(all, i as int),
        invariant
            all == text::texts(p@),
            i <= p.len(),
        ensures
            match collection_at(all, 0) {
                Some(k) => text::opt_text(collection) == collection_of(all[k]) && text::opt_text(object_name)
                    == (if k + 1 < all.len() {
                    Some(all[k + 1])
                } else {
                    None
                }),
                None => collection is None && object_name is None,
            },
        decreases p.len() - i,
    {
        assert(all[i as int] == p[i as int]@);
        if let Some(name) = known_collection(p[i].as_str()) {
            collection = Some(name);
            if i + 1 < p.len() {
                assert(all[i + 1] == p[i + 1]@);
                object_name = Some(p[i + 1].as_str().to_string());
            }
            break;
        }
        i += 1;
    }
    assert(all[0] == p[0]@ && all.last() == p[p.len() - 1]@);
    let module_type = if has_text(rel_path, "/Forms/") || has_text(rel_path, "/Form/") {
        "Form".to_string()
    } else {
        file_type(p[p.len() - 1].as_str())
    };
    ParsedPath {
        scope: scope_name(p[0].as_str()),
        collection,
        object_name,
        module_type,
        owner_path: owner_module_path(rel_path),
    }
}

/// An owner has no owner: the owner of a form is no form.
pub proof fn law_owner_has_no_owner(path: Seq<char>)
    requires
        owner_of(path) is Some,
    ensures
        owner_of(owner_of(path)->0) is None,
{
    let p = text::parts(path, '/');
    let file = "ExternalDataProcessor.obj.bsl"@;
    reveal_strlit("/");
    reveal_strlit("ExternalDataProcessor.obj.bsl");
    reveal_strlit("/ExternalDataProcessor.obj.bsl");
    assert("/ExternalDataProcessor.obj.bsl"@ =~= seq!['/'] + file);
    assert forall|k: int| 0 <= k < p[0].len() implies #[trigger] p[0][k] != '/' by {
        text::lemma_parts_have_no_sep(path, '/', 0, 0, k);
    }
    assert forall|k: int| 0 <= k < p[1].len() implies #[trigger] p[1][k] != '/' by {
        text::lemma_parts_have_no_sep(path, '/', 0, 1, k);
    }
    let owner = owner_of(path)->0;
    assert(owner =~= p[0] + seq!['/'] + (p[1] + seq!['/'] + file));
    text::lemma_parts_prepend(p[0], '/', p[1] + seq!['/'] + file);
    text::lemma_parts_prepend(p[1], '/', file);
    text::lemma_parts_single(file, '/');
    assert(text::parts(owner, '/').len() == 3);
}

proof fn lemma_listed(list: Seq<Seq<char>>, s: Seq<char>, i: int) -> (at: int)
    requires
        0 <= i <= list.len(),
    ensures
        i <= at <= list.len(),
        at < list.len() ==> listed_from(list, s, i) == Some(list[at]) && text::ascii_same(list[at], s),
        at == list.len() ==> listed_from(list, s, i) is None,
        forall|k: int| i <= k < at ==> !text::ascii_same(#[trigger] list[k], s),
    decreases list.len() - i,
{
    if i >= list.len() || text::ascii_same(list[i], s) {
        i
    } else {
        lemma_listed(list, s, i + 1)
    }
}

/// A folder is that of a class of objects exactly where it is named as one of the list, whatever
/// the letter case, and then it stands for that one. A file is an application module in the same
/// way.
pub proof fn law_folders_are_known_in_any_letter_case(folder: Seq<char>)
    ensures
        collection_of(folder) is Some <==> exists|i: int|
            0 <= i < collections().len() && text::ascii_lowercase(#[trigger] collections()[i])
                == text::ascii_lowercase(folder),
        collection_of(folder) matches Some(c) ==> collections().contains(c) && text::ascii_lowercase(c)
            == text::ascii_lowercase(folder),
        application_module(folder) <==> exists|i: int|
            0 <= i < application_modules().len() && text::ascii_lowercase(
                #[trigger] application_modules()[i],
            ) == text::ascii_lowercase(folder),
{
    let a = lemma_listed(collections(), folder, 0);
    let b = lemma_listed(application_modules(), folder, 0);
    if exists|i: int|
        0 <= i < collections().len() && text::ascii_lowercase(#[trigger] collections()[i])
            == text::ascii_lowercase(folder) {
        let i = choose|i: int|
            0 <= i < collections().len() && text::ascii_lowercase(#[trigger] collections()[i])
                == text::ascii_lowercase(folder);
        assert(text::ascii_same(collections()[i], folder));
    }
    if exists|i: int|
        0 <= i < application_modules().len() && text::ascii_lowercase(#[trigger] application_modules()[i])
            == text::ascii_lowercase(folder) {
        let i = choose|i: int|
            0 <= i < application_modules().len() && text::ascii_lowercase(
                #[trigger] application_modules()[i],
            ) == text::ascii_lowercase(folder);
        assert(text::ascii_same(application_modules()[i], folder));
    }
}

proof fn lemma_collection_at(p: Seq<Seq<char>>, i: int, at: int)
    requires
        0 <= i <= at <= p.len(),
        forall|k: int| i <= k < at ==> collection_of(#[trigger] p[k]) is None,
        at < p.len() ==> collection_of(p[at]) is Some,
    ensures
        collection_at(p, i) == (if at < p.len() {
            Some(at)
        } else {
            None
        }),
    decreases at - i,
{
    if i < at {
        assert(collection_of(p[i]) is None);
        lemma_collection_at(p, i + 1, at);
    }
}

/// The object of a module is named by its path: the first part that is the folder of a class says
/// the class, and the part behind it is the object. A path without such a part names none.
pub proof fn law_path_names_the_object(path: Seq<char>, i: int)
    requires
        0 <= i <= text::parts(path, '/').len(),
        forall|k: int| 0 <= k < i ==> collection_of(#[trigger] text::parts(path, '/')[k]) is None,
        i < text::parts(path, '/').len() ==> collection_of(text::parts(path, '/')[i]) is Some,
    ensures
        i < text::parts(path, '/').len() ==> path_facts(path).collection == collection_of(
            text::parts(path, '/')[i],
        ),
        i + 1 < text::parts(path, '/').len() ==> path_facts(path).object_name == Some(
            text::parts(path, '/')[i + 1],
        ),
        i + 1 == text::parts(path, '/').len() ==> path_facts(path).object_name is None,
        i == text::parts(path, '/').len() ==> path_facts(path).collection is None && path_facts(
            path,
        ).object_name is None,
{
    lemma_collection_at(text::parts(path, '/'), 0, i);
}

/// The owner of a form of an external data processor is the module of that processor: the path of
/// the form up to the name of the processor, and its file.
pub proof fn law_owner_of_a_form(top: Seq<char>, name: Seq<char>, form: Seq<char>)
    requires
        text::ascii_lowercase(top) == text::ascii_lowercase("external"@),
        forall|k: int| 0 <= k < top.len() ==> #[trigger] top[k] != '/',
        forall|k: int| 0 <= k < name.len() ==> #[trigger] name[k] != '/',
        forall|k: int| 0 <= k < form.len() ==> #[trigger] form[k] != '/',
    ensures
        owner_of(top + seq!['/'] + (name + seq!['/'] + ("Form"@ + seq!['/'] + (form + seq!['/'] + "Form.obj.bsl"@))))
            == Some(top + "/"@ + name + "/ExternalDataProcessor.obj.bsl"@),
{
    reveal_strlit("Form");
    reveal_strlit("Form.obj.bsl");
    let d = form + seq!['/'] + "Form.obj.bsl"@;
    let c = "Form"@ + seq!['/'] + d;
    let b = name + seq!['/'] + c;
    text::lemma_parts_single("Form.obj.bsl"@, '/');
    text::lemma_parts_prepend(form, '/', "Form.obj.bsl"@);
    text::lemma_parts_prepend("Form"@, '/', d);
    text::lemma_parts_prepend(name, '/', c);
    text::lemma_parts_prepend(top, '/', b);
    let p = text::parts(top + seq!['/'] + b, '/');
    assert(p =~= seq![top, name, "Form"@, form, "Form.obj.bsl"@]);
}

} // verus!
