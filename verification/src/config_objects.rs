//! Objects of the configuration that a module names and that do not exist.
//!
//! The head of `Name.Member` is not always a common module: it may be an attribute of the
//! object or of the form, a member of the form's context, or a variable. Where that cannot be
//! told, nothing is reported.
use crate::context_names;
use crate::context_names::FORM_TYPE;
use crate::facts::{AstFacts, DotFact, ManagerCallFact};
use crate::findings;
use crate::findings::{add_finding, add_hint, ExprError, ExprErrorKind};
use crate::fuzzy;
use crate::fuzzy::find_typo;
use crate::lite_index::layout;
use crate::paths;
use crate::paths::is_common_module;
use crate::platform;
use crate::platform::{type_has_member, Method, PlatformIndex, Property, Type};
use crate::symbols;
use crate::symbols::SymbolSource;
use crate::text;
use crate::text::{char_is_alpha, has_prefix, holds_text, same_text, to_lower, trim, Edge};
use vstd::prelude::*;

verus! {

/// The collection of objects that a manager of the platform stands for, its lower-case name
/// being `key`, and how the names of the types of its objects' managers begin.
pub open spec fn manager_of(key: Seq<char>) -> Option<(Seq<char>, Seq<char>)> {
    if key == text::lowercase("Справочники"@) {
        Some(("Catalogs"@, "СправочникМенеджер"@))
    } else if key == text::lowercase("Документы"@) {
        Some(("Documents"@, "ДокументМенеджер"@))
    } else if key == text::lowercase("РегистрыСведений"@) {
        Some(("InformationRegisters"@, "РегистрСведенийМенеджер"@))
    } else if key == text::lowercase("РегистрыНакопления"@) {
        Some(("AccumulationRegisters"@, "РегистрНакопленияМенеджер"@))
    } else if key == text::lowercase("РегистрыБухгалтерии"@) {
        Some(("AccountingRegisters"@, "РегистрБухгалтерииМенеджер"@))
    } else if key == text::lowercase("РегистрыРасчета"@) {
        Some(("CalculationRegisters"@, "РегистрРасчетаМенеджер"@))
    } else if key == text::lowercase("Перечисления"@) {
        Some(("Enums"@, "ПеречислениеМенеджер"@))
    } else if key == text::lowercase("ПланыВидовХарактеристик"@) {
        Some(("ChartsOfCharacteristicTypes"@, "ПланВидовХарактеристикМенеджер"@))
    } else if key == text::lowercase("ПланыСчетов"@) {
        Some(("ChartsOfAccounts"@, "ПланСчетовМенеджер"@))
    } else if key == text::lowercase("ПланыВидовРасчета"@) {
        Some(("ChartsOfCalculationTypes"@, "ПланВидовРасчетаМенеджер"@))
    } else if key == text::lowercase("БизнесПроцессы"@) {
        Some(("BusinessProcesses"@, "БизнесПроцессМенеджер"@))
    } else if key == text::lowercase("Задачи"@) {
        Some(("Tasks"@, "ЗадачаМенеджер"@))
    } else if key == text::lowercase("ПланыОбмена"@) {
        Some(("ExchangePlans"@, "ПланОбменаМенеджер"@))
    } else if key == text::lowercase("Константы"@) {
        Some(("Constants"@, "КонстантаМенеджер"@))
    } else if key == text::lowercase("Обработки"@) {
        Some(("DataProcessors"@, "ОбработкаМенеджер"@))
    } else if key == text::lowercase("Отчеты"@) {
        Some(("Reports"@, "ОтчетМенеджер"@))
    } else if key == text::lowercase("ЖурналыДокументов"@) {
        Some(("DocumentJournals"@, "ЖурналДокументовМенеджер"@))
    } else if key == text::lowercase("КритерииОтбора"@) {
        Some(("FilterCriteria"@, "КритерийОтбораМенеджер"@))
    } else if key == text::lowercase("Последовательности"@) {
        Some(("Sequences"@, "ПоследовательностьМенеджер"@))
    } else {
        None
    }
}

/// The names of the managers of the platform.
pub open spec fn manager_names() -> Seq<Seq<char>> {
    seq![
        "Справочники"@,
        "Документы"@,
        "РегистрыСведений"@,
        "РегистрыНакопления"@,
        "РегистрыБухгалтерии"@,
        "РегистрыРасчета"@,
        "Перечисления"@,
        "ПланыВидовХарактеристик"@,
        "ПланыСчетов"@,
        "ПланыВидовРасчета"@,
        "БизнесПроцессы"@,
        "Задачи"@,
        "ПланыОбмена"@,
        "Константы"@,
        "Обработки"@,
        "Отчеты"@,
        "ЖурналыДокументов"@,
        "КритерииОтбора"@,
        "Последовательности"@,
    ]
}

fn is_lower_of(key: &str, name: &str) -> (r: bool)
    ensures
        r == (key@ == text::lowercase(name@)),
{
    same_text(key, to_lower(name).as_str())
}

/// The collection and the type prefix of a manager, its lower-case name being `key`.
fn manager_collection_with_prefix(key: &str) -> (r: Option<(&'static str, &'static str)>)
    ensures
        match r {
            Some((c, p)) => manager_of(key@) == Some((c@, p@)),
            None => manager_of(key@) is None,
        },
{
    if is_lower_of(key, "Справочники") {
        Some(("Catalogs", "СправочникМенеджер"))
    } else if is_lower_of(key, "Документы") {
        Some(("Documents", "ДокументМенеджер"))
    } else if is_lower_of(key, "РегистрыСведений") {
        Some(("InformationRegisters", "РегистрСведенийМенеджер"))
    } else if is_lower_of(key, "РегистрыНакопления") {
        Some(("AccumulationRegisters", "РегистрНакопленияМенеджер"))
    } else if is_lower_of(key, "РегистрыБухгалтерии") {
        Some(("AccountingRegisters", "РегистрБухгалтерииМенеджер"))
    } else if is_lower_of(key, "РегистрыРасчета") {
        Some(("CalculationRegisters", "РегистрРасчетаМенеджер"))
    } else if is_lower_of(key, "Перечисления") {
        Some(("Enums", "ПеречислениеМенеджер"))
    } else if is_lower_of(key, "ПланыВидовХарактеристик") {
        Some(("ChartsOfCharacteristicTypes", "ПланВидовХарактеристикМенеджер"))
    } else if is_lower_of(key, "ПланыСчетов") {
        Some(("ChartsOfAccounts", "ПланСчетовМенеджер"))
    } else if is_lower_of(key, "ПланыВидовРасчета") {
        Some(("ChartsOfCalculationTypes", "ПланВидовРасчетаМенеджер"))
    } else if is_lower_of(key, "БизнесПроцессы") {
        Some(("BusinessProcesses", "БизнесПроцессМенеджер"))
    } else if is_lower_of(key, "Задачи") {
        Some(("Tasks", "ЗадачаМенеджер"))
    } else if is_lower_of(key, "ПланыОбмена") {
        Some(("ExchangePlans", "ПланОбменаМенеджер"))
    } else if is_lower_of(key, "Константы") {
        Some(("Constants", "КонстантаМенеджер"))
    } else if is_lower_of(key, "Обработки") {
        Some(("DataProcessors", "ОбработкаМенеджер"))
    } else if is_lower_of(key, "Отчеты") {
        Some(("Reports", "ОтчетМенеджер"))
    } else if is_lower_of(key, "ЖурналыДокументов") {
        Some(("DocumentJournals", "ЖурналДокументовМенеджер"))
    } else if is_lower_of(key, "КритерииОтбора") {
        Some(("FilterCriteria", "КритерийОтбораМенеджер"))
    } else if is_lower_of(key, "Последовательности") {
        Some(("Sequences", "ПоследовательностьМенеджер"))
    } else {
        None
    }
}

/// Names of the context that are in no platform help: the object and the form themselves.
pub open spec fn context_head(key: Seq<char>) -> bool {
    ||| key == text::lowercase("Объект"@)
    ||| key == text::lowercase("ЭтотОбъект"@)
    ||| key == text::lowercase("ЭтаФорма"@)
    ||| key == text::lowercase("Форма"@)
}

fn is_context_head(key: &str) -> (r: bool)
    ensures
        r == context_head(key@),
{
    is_lower_of(key, "Объект") || is_lower_of(key, "ЭтотОбъект") || is_lower_of(key, "ЭтаФорма")
        || is_lower_of(key, "Форма")
}

/// A lower-case name is bound somewhere in the module: by an assignment, a declaration, a loop
/// or as a parameter.
pub open spec fn bound_somewhere(facts: AstFacts, key: Seq<char>) -> bool {
    ||| exists|i: int|
        0 <= i < facts.assigns@.len() && text::lowercase((#[trigger] facts.assigns@[i]).name@) == key
    ||| text::texts(facts.loop_vars@).contains(key)
    ||| exists|i: int|
        0 <= i < facts.procs@.len() && text::texts((#[trigger] facts.procs@[i]).params@).contains(key)
}

fn is_bound_somewhere(facts: &AstFacts, key: &str) -> (r: bool)
    ensures
        r == bound_somewhere(*facts, key@),
{
    if holds_text(&facts.loop_vars, key) {
        return true;
    }
    let mut i: usize = 0;
    while i < facts.assigns.len()
        invariant
            i <= facts.assigns.len(),
            forall|k: int|
                0 <= k < i ==> text::lowercase((#[trigger] facts.assigns@[k]).name@) != key@,
        decreases facts.assigns.len() - i,
    {
        if same_text(to_lower(facts.assigns[i].name.as_str()).as_str(), key) {
            assert(text::lowercase(facts.assigns@[i as int].name@) == key@);
            return true;
        }
        i += 1;
    }
    let mut j: usize = 0;
    while j < facts.procs.len()
        invariant
            j <= facts.procs.len(),
            forall|k: int|
                0 <= k < j ==> !text::texts((#[trigger] facts.procs@[k]).params@).contains(key@),
        decreases facts.procs.len() - j,
    {
        if holds_text(&facts.procs[j].params, key) {
            assert(text::texts(facts.procs@[j as int].params@).contains(key@));
            return true;
        }
        j += 1;
    }
    false
}

/// A name that starts with a letter or an underscore.
pub open spec fn identifier_like(name: Seq<char>) -> bool {
    name.len() > 0 && (text::is_alpha(name[0]) || name[0] == '_')
}

fn is_identifier_like(name: &str) -> (r: bool)
    ensures
        r == identifier_like(name@),
{
    if name.is_empty() {
        return false;
    }
    let c = name.get_char(0);
    char_is_alpha(c) || c == '_'
}

/// The manager itself has the member: a method or a property of its type, which the global
/// property of its name gives.
pub open spec fn manager_has_member(index: PlatformIndex, head: Seq<char>, member: Seq<char>) -> bool {
    platform::property_named(index.global_properties@, head) matches Some(p) && (platform::type_named(
        index.types@,
        text::trimmed(Edge::Backtick, p.value_type@),
    ) matches Some(ty) && platform::has_member(ty, text::lowercase(member)))
}

fn manager_type_has_member(index: &PlatformIndex, head: &str, member: &str) -> (r: bool)
    ensures
        r == manager_has_member(*index, head@, member@),
{
    match index.find_global_property(head) {
        Some(p) => {
            let name = trim(Edge::Backtick, p.value_type.as_str());
            match index.find_type(name.as_str()) {
                Some(ty) => type_has_member(ty, to_lower(member).as_str()),
                None => false,
            }
        },
        None => false,
    }
}

/// The first type, from number `i` on, whose Russian name in lower case starts with `prefix`.
pub open spec fn type_starting(types: Seq<Type>, prefix: Seq<char>, i: int) -> Option<Type>
    decreases types.len() - i,
{
    if i < 0 || i >= types.len() {
        None
    } else if text::starts_with(text::lowercase(types[i].name_ru@), prefix) {
        Some(types[i])
    } else {
        type_starting(types, prefix, i + 1)
    }
}

/// The type of the manager of one object, by the beginning of its name.
pub open spec fn object_manager(index: PlatformIndex, prefix: Seq<char>) -> Option<Type> {
    type_starting(index.types@, text::lowercase(prefix) + "."@, 0)
}

fn manager_object_type<'a>(index: &'a PlatformIndex, prefix: &str) -> (r: Option<&'a Type>)
    ensures
        match r {
            Some(t) => object_manager(*index, prefix@) == Some(*t),
            None => object_manager(*index, prefix@) is None,
        },
{
    let mut needle = to_lower(prefix);
    needle.append(".");
    let mut i: usize = 0;
    while i < index.types.len()
        invariant
            needle@ == text::lowercase(prefix@) + "."@,
            i <= index.types.len(),
            object_manager(*index, prefix@) == type_starting(index.types@, needle@, i as int),
        decreases index.types.len() - i,
    {
        if has_prefix(to_lower(index.types[i].name_ru.as_str()).as_str(), needle.as_str()) {
            return Some(&index.types[i]);
        }
        i += 1;
    }
    None
}

/// Some method of a list has a lower-case Russian name.
pub open spec fn method_in_russian(methods: Seq<Method>, key: Seq<char>) -> bool {
    exists|i: int| 0 <= i < methods.len() && text::lowercase((#[trigger] methods[i]).name_ru@) == key
}

/// Some property of a list has a lower-case Russian name.
pub open spec fn property_in_russian(properties: Seq<Property>, key: Seq<char>) -> bool {
    exists|i: int|
        0 <= i < properties.len() && text::lowercase((#[trigger] properties[i]).name_ru@) == key
}

/// The context of a managed form has a member with a lower-case name.
pub open spec fn form_has_member(index: PlatformIndex, key: Seq<char>) -> bool {
    platform::type_named(index.types@, FORM_TYPE@) matches Some(ty) && (property_in_russian(
        ty.properties@,
        key,
    ) || method_in_russian(ty.methods@, key))
}

fn form_type_has_member(index: &PlatformIndex, key: &str) -> (r: bool)
    ensures
        r == form_has_member(*index, key@),
{
    let ty = match index.find_type(FORM_TYPE) {
        Some(t) => t,
        None => return false,
    };
    let mut i: usize = 0;
    while i < ty.properties.len()
        invariant
            platform::type_named(index.types@, FORM_TYPE@) == Some(*ty),
            i <= ty.properties.len(),
            forall|k: int|
                0 <= k < i ==> text::lowercase((#[trigger] ty.properties@[k]).name_ru@) != key@,
        decreases ty.properties.len() - i,
    {
        if same_text(to_lower(ty.properties[i].name_ru.as_str()).as_str(), key) {
            assert(text::lowercase(ty.properties@[i as int].name_ru@) == key@);
            return true;
        }
        i += 1;
    }
    let mut j: usize = 0;
    while j < ty.methods.len()
        invariant
            platform::type_named(index.types@, FORM_TYPE@) == Some(*ty),
            j <= ty.methods.len(),
            forall|k: int| 0 <= k < j ==> text::lowercase((#[trigger] ty.methods@[k]).name_ru@) != key@,
        decreases ty.methods.len() - j,
    {
        if same_text(to_lower(ty.methods[j].name_ru.as_str()).as_str(), key) {
            assert(text::lowercase(ty.methods@[j as int].name_ru@) == key@);
            return true;
        }
        j += 1;
    }
    false
}

/// The module surely has no attributes of an object around it: no path is given, it is a
/// common module, or it is the module of a form whose attributes are known.
pub open spec fn no_object_context(path: Option<Seq<char>>, in_form: bool) -> bool {
    match path {
        None => true,
        Some(p) => paths::common_module(p) || in_form,
    }
}

fn has_no_object_context(path: Option<&str>, in_form: bool) -> (r: bool)
    ensures
        r == no_object_context(text::opt_str(path), in_form),
{
    match path {
        None => true,
        Some(p) => is_common_module(p) || in_form,
    }
}

/// The name of the collection that a name is a typing error for.
pub open spec fn suggested(a: symbols::Answers, collection: Seq<char>, name: Seq<char>) -> Option<
    Seq<char>,
> {
    match (a.names)(collection) {
        Some(names) => match fuzzy::typo_of(name, names) {
            Some((s, _)) => Some(s),
            None => None,
        },
        None => None,
    }
}

fn suggestion_for<S: SymbolSource>(symbols: &S, collection: &str, name: &str) -> (r: Option<String>)
    ensures
        text::opt_text(r) == suggested(symbols.knows(), collection@, name@),
{
    match symbols.collection_names(collection) {
        Some(names) => match find_typo(name, &names) {
            Some((s, _)) => Some(s),
            None => None,
        },
        None => None,
    }
}

/// A finding with the reliability of its kind, and with the name that was meant at its end.
pub open spec fn object_finding(
    src: Seq<char>,
    byte: nat,
    kind: ExprErrorKind,
    message: Seq<char>,
    suggestion: Option<Seq<char>>,
) -> findings::FindingView {
    findings::finding_at(
        src,
        byte,
        kind,
        message + findings::hint(" Возможно, вы имели в виду '"@, suggestion),
        findings::kind_confidence(kind),
        suggestion,
    )
}

fn emit(
    src: &str,
    byte: usize,
    kind: ExprErrorKind,
    message: String,
    suggestion: Option<String>,
) -> (r: ExprError)
    requires
        findings::countable(src@),
    ensures
        r@ == object_finding(src@, byte as nat, kind, message@, text::opt_text(suggestion)),
{
    let mut whole = message;
    add_hint(&mut whole, " Возможно, вы имели в виду '", &suggestion);
    ExprError::at(src, byte, kind, whole, kind.confidence(), suggestion)
}

/// The finding that an access to an object of the configuration makes.
///
/// Behind a manager of the platform stands the name of an object, unless the manager itself
/// has such a member. Any other head that is called like a common module has to be one, where
/// the module has no attributes of an object around it and the source knows the variables of
/// the application module.
pub open spec fn access_finding(
    index: PlatformIndex,
    src: Seq<char>,
    facts: AstFacts,
    path: Option<Seq<char>>,
    in_form: bool,
    attributes: Option<Seq<Seq<char>>>,
    a: symbols::Answers,
    dot: DotFact,
) -> Option<findings::FindingView> {
    let key = text::lowercase(dot.head@);
    if bound_somewhere(facts, key) || (attributes matches Some(names) && names.contains(key)) {
        None
    } else {
        match manager_of(key) {
            Some((collection, _)) => if !manager_has_member(index, dot.head@, dot.member@) && (a.object)(
                collection,
                text::lowercase(dot.member@),
            ) == Some(false) {
                Some(
                    object_finding(
                        src,
                        dot.member_byte as nat,
                        ExprErrorKind::UnknownMetadataObject,
                        "Объект '"@ + dot.member@ + "' не существует в '"@ + dot.head@ + "'."@,
                        suggested(a, collection, dot.member@),
                    ),
                )
            } else {
                None
            },
            None => match a.variables {
                None => None,
                Some(variables) => if no_object_context(path, in_form) && dot.member_is_call
                    && identifier_like(dot.head@) && !variables.contains(key) && !context_head(key)
                    && platform::type_named(index.types@, dot.head@) is None
                    && platform::property_named(index.global_properties@, dot.head@) is None && !(in_form
                    && facts.has_directives && form_has_member(index, key)) && (a.object)(
                    "CommonModules"@,
                    key,
                ) == Some(false) {
                    Some(
                        object_finding(
                            src,
                            dot.head_byte as nat,
                            ExprErrorKind::UnknownCommonModule,
                            "Общий модуль '"@ + dot.head@ + "' не существует в конфигурации."@,
                            suggested(a, "CommonModules"@, dot.head@),
                        ),
                    )
                } else {
                    None
                },
            },
        }
    }
}

/// What is said of a method that the manager of an object does not have.
pub open spec fn manager_message(call: ManagerCallFact, suggestion: Seq<char>) -> Seq<char> {
    "У '"@ + call.collection@ + "."@ + call.object@ + "' нет метода '"@ + call.method@
        + "'. Возможно, вы имели в виду '"@ + suggestion + "'."@
}

/// The finding that a call of a method of an object's manager makes: the object exists, its
/// manager is described, neither the manager nor any module has the method, and it is a typing
/// error for one that the manager has.
pub open spec fn manager_call_finding(
    index: PlatformIndex,
    src: Seq<char>,
    facts: AstFacts,
    attributes: Option<Seq<Seq<char>>>,
    a: symbols::Answers,
    call: ManagerCallFact,
) -> Option<findings::FindingView> {
    let key = text::lowercase(call.collection@);
    let method = text::lowercase(call.method@);
    if bound_somewhere(facts, key) || (attributes matches Some(names) && names.contains(key)) {
        None
    } else {
        match manager_of(key) {
            None => None,
            Some((collection, prefix)) => if (a.object)(collection, text::lowercase(call.object@))
                != Some(true) {
                None
            } else {
                match object_manager(index, prefix) {
                    None => None,
                    Some(ty) => if platform::has_member(ty, method) || (a.declared)(method) {
                        None
                    } else {
                        match fuzzy::typo_of(call.method@, platform::method_names(ty.methods@)) {
                            None => None,
                            Some((suggestion, confidence)) => Some(
                                findings::finding_at(
                                    src,
                                    call.method_byte as nat,
                                    ExprErrorKind::UnknownManagerMethod,
                                    manager_message(call, suggestion),
                                    confidence,
                                    Some(suggestion),
                                ),
                            ),
                        }
                    },
                }
            },
        }
    }
}

/// The findings of the first `n` accesses.
pub open spec fn access_findings(
    index: PlatformIndex,
    src: Seq<char>,
    facts: AstFacts,
    path: Option<Seq<char>>,
    in_form: bool,
    attributes: Option<Seq<Seq<char>>>,
    a: symbols::Answers,
    n: int,
) -> Seq<findings::FindingView>
    decreases n,
{
    if n <= 0 {
        seq![]
    } else {
        access_findings(index, src, facts, path, in_form, attributes, a, n - 1) + findings::some_finding(
            access_finding(index, src, facts, path, in_form, attributes, a, facts.dots@[n - 1]),
        )
    }
}

/// The findings of the first `n` calls of managers.
pub open spec fn manager_call_findings(
    index: PlatformIndex,
    src: Seq<char>,
    facts: AstFacts,
    attributes: Option<Seq<Seq<char>>>,
    a: symbols::Answers,
    n: int,
) -> Seq<findings::FindingView>
    decreases n,
{
    if n <= 0 {
        seq![]
    } else {
        manager_call_findings(index, src, facts, attributes, a, n - 1) + findings::some_finding(
            manager_call_finding(index, src, facts, attributes, a, facts.manager_calls@[n - 1]),
        )
    }
}

/// All findings on objects of the configuration. Without a source of names there is none, nor
/// in the module of a form whose attributes are not known.
pub open spec fn object_findings(
    index: PlatformIndex,
    src: Seq<char>,
    facts: AstFacts,
    path: Option<Seq<char>>,
    in_form: bool,
    attributes: Option<Seq<Seq<char>>>,
    answers: Option<symbols::Answers>,
) -> Seq<findings::FindingView> {
    match answers {
        None => seq![],
        Some(a) => if in_form && attributes is None {
            seq![]
        } else {
            access_findings(
                index,
                src,
                facts,
                path,
                in_form,
                attributes,
                a,
                facts.dots@.len() as int,
            ) + manager_call_findings(
                index,
                src,
                facts,
                attributes,
                a,
                facts.manager_calls@.len() as int,
            )
        },
    }
}

fn is_attribute(form_attributes: Option<&Vec<String>>, key: &str) -> (r: bool)
    ensures
        r == (context_names::opt_names(form_attributes) matches Some(names) && names.contains(key@)),
{
    match form_attributes {
        Some(names) => holds_text(names, key),
        None => false,
    }
}

fn check_access<S: SymbolSource>(
    index: &PlatformIndex,
    src: &str,
    facts: &AstFacts,
    path: Option<&str>,
    in_form: bool,
    form_attributes: Option<&Vec<String>>,
    symbols: &S,
    global_vars: &Option<Vec<String>>,
    dot: &DotFact,
) -> (r: Option<ExprError>)
    requires
        findings::countable(src@),
        symbols::opt_texts(*global_vars) == symbols.knows().variables,
    ensures
        findings::opt_finding(r) == access_finding(
            *index,
            src@,
            *facts,
            text::opt_str(path),
            in_form,
            context_names::opt_names(form_attributes),
            symbols.knows(),
            *dot,
        ),
{
    let key = to_lower(dot.head.as_str());
    if is_bound_somewhere(facts, key.as_str()) || is_attribute(form_attributes, key.as_str()) {
        return None;
    }
    if let Some((collection, _)) = manager_collection_with_prefix(key.as_str()) {
        if manager_type_has_member(index, dot.head.as_str(), dot.member.as_str()) {
            return None;
        }
        let member = to_lower(dot.member.as_str());
        let answer = symbols.object_exists(collection, member.as_str());
        if answer.is_none() || answer.unwrap() {
            return None;
        }
        let mut message = "Объект '".to_owned();
        message.append(dot.member.as_str());
        message.append("' не существует в '");
        message.append(dot.head.as_str());
        message.append("'.");
        let suggestion = suggestion_for(symbols, collection, dot.member.as_str());
        return Some(
            emit(src, dot.member_byte, ExprErrorKind::UnknownMetadataObject, message, suggestion),
        );
    }
    let variables = match global_vars {
        Some(v) => v,
        None => return None,
    };
    if !has_no_object_context(path, in_form) || !dot.member_is_call || !is_identifier_like(
        dot.head.as_str(),
    ) || holds_text(variables, key.as_str()) || is_context_head(key.as_str()) {
        return None;
    }
    if index.find_type(dot.head.as_str()).is_some() || index.find_global_property(
        dot.head.as_str(),
    ).is_some() {
        return None;
    }
    if in_form && facts.has_directives && form_type_has_member(index, key.as_str()) {
        return None;
    }
    let answer = symbols.object_exists("CommonModules", key.as_str());
    if answer.is_none() || answer.unwrap() {
        return None;
    }
    let mut message = "Общий модуль '".to_owned();
    message.append(dot.head.as_str());
    message.append("' не существует в конфигурации.");
    let suggestion = suggestion_for(symbols, "CommonModules", dot.head.as_str());
    Some(emit(src, dot.head_byte, ExprErrorKind::UnknownCommonModule, message, suggestion))
}

fn check_manager_call<S: SymbolSource>(
    index: &PlatformIndex,
    src: &str,
    facts: &AstFacts,
    form_attributes: Option<&Vec<String>>,
    symbols: &S,
    call: &ManagerCallFact,
) -> (r: Option<ExprError>)
    requires
        findings::countable(src@),
    ensures
        findings::opt_finding(r) == manager_call_finding(
            *index,
            src@,
            *facts,
            context_names::opt_names(form_attributes),
            symbols.knows(),
            *call,
        ),
{
    let key = to_lower(call.collection.as_str());
    if is_bound_somewhere(facts, key.as_str()) || is_attribute(form_attributes, key.as_str()) {
        return None;
    }
    let (collection, prefix) = match manager_collection_with_prefix(key.as_str()) {
        Some(m) => m,
        None => return None,
    };
    let object = to_lower(call.object.as_str());
    let answer = symbols.object_exists(collection, object.as_str());
    if answer.is_none() || !answer.unwrap() {
        return None;
    }
    let ty = match manager_object_type(index, prefix) {
        Some(t) => t,
        None => return None,
    };
    let method = to_lower(call.method.as_str());
    if type_has_member(ty, method.as_str()) || symbols.method_exists(method.as_str()) {
        return None;
    }
    let names = method_name_list(&ty.methods);
    match find_typo(call.method.as_str(), &names) {
        None => None,
        Some((suggestion, confidence)) => {
            let mut message = "У '".to_owned();
            message.append(call.collection.as_str());
            message.append(".");
            message.append(call.object.as_str());
            message.append("' нет метода '");
            message.append(call.method.as_str());
            message.append("'. Возможно, вы имели в виду '");
            message.append(suggestion.as_str());
            message.append("'.");
            Some(
                ExprError::at(
                    src,
                    call.method_byte,
                    ExprErrorKind::UnknownManagerMethod,
                    message,
                    confidence,
                    Some(suggestion),
                ),
            )
        },
    }
}

fn method_name_list(methods: &Vec<Method>) -> (r: Vec<String>)
    ensures
        text::texts(r@) == platform::method_names(methods@),
{
    let mut out: Vec<String> = Vec::new();
    let mut i: usize = 0;
    while i < methods.len()
        invariant
            i <= methods.len(),
            text::texts(out@) == platform::method_names(methods@).take(i as int),
        decreases methods.len() - i,
    {
        let name = methods[i].name_ru.clone();
        proof {
            text::lemma_texts_push(out@, name);
            assert(platform::method_names(methods@).take(i + 1) =~= platform::method_names(methods@).take(
                i as int,
            ).push(name@));
        }
        out.push(name);
        i += 1;
    }
    assert(platform::method_names(methods@).take(i as int) =~= platform::method_names(methods@));
    out
}

/// Check accesses to objects of the configuration, and calls of methods of their managers.
pub(crate) fn check_config_objects<S: SymbolSource>(
    index: &PlatformIndex,
    src: &str,
    facts: &AstFacts,
    path: Option<&str>,
    in_form: bool,
    form_attributes: Option<&Vec<String>>,
    symbols: Option<&S>,
    errors: &mut Vec<ExprError>,
)
    requires
        findings::countable(src@),
    ensures
        findings::finding_views(final(errors)@) == findings::finding_views(old(errors)@) + object_findings(
            *index,
            src@,
            *facts,
            text::opt_str(path),
            in_form,
            context_names::opt_names(form_attributes),
            symbols::answers_of(symbols),
        ),
{
    let ghost start = findings::finding_views(errors@);
    assert(start + Seq::<findings::FindingView>::empty() =~= start);
    let source = match symbols {
        Some(s) => s,
        None => return ,
    };
    if in_form && form_attributes.is_none() {
        return;
    }
    let ghost names = context_names::opt_names(form_attributes);
    let ghost a = source.knows();
    let global_vars = source.global_variables();
    let mut i: usize = 0;
    while i < facts.dots.len()
        invariant
            findings::countable(src@),
            names == context_names::opt_names(form_attributes),
            a == source.knows(),
            symbols::opt_texts(global_vars) == a.variables,
            i <= facts.dots.len(),
            findings::finding_views(errors@) == start + access_findings(
                *index,
                src@,
                *facts,
                text::opt_str(path),
                in_form,
                names,
                a,
                i as int,
            ),
        decreases facts.dots.len() - i,
    {
        let ghost before = access_findings(
            *index,
            src@,
            *facts,
            text::opt_str(path),
            in_form,
            names,
            a,
            i as int,
        );
        let found = check_access(
            index,
            src,
            facts,
            path,
            in_form,
            form_attributes,
            source,
            &global_vars,
            &facts.dots[i],
        );
        let ghost one = findings::some_finding(findings::opt_finding(found));
        add_finding(errors, found);
        assert((start + before) + one =~= start + (before + one));
        i += 1;
    }
    let ghost accesses = access_findings(
        *index,
        src@,
        *facts,
        text::opt_str(path),
        in_form,
        names,
        a,
        facts.dots@.len() as int,
    );
    let ghost middle = findings::finding_views(errors@);
    assert(middle + Seq::<findings::FindingView>::empty() =~= middle);
    let mut j: usize = 0;
    while j < facts.manager_calls.len()
        invariant
            findings::countable(src@),
            names == context_names::opt_names(form_attributes),
            a == source.knows(),
            j <= facts.manager_calls.len(),
            findings::finding_views(errors@) == middle + manager_call_findings(
                *index,
                src@,
                *facts,
                names,
                a,
                j as int,
            ),
        decreases facts.manager_calls.len() - j,
    {
        let ghost before = manager_call_findings(*index, src@, *facts, names, a, j as int);
        let found = check_manager_call(
            index,
            src,
            facts,
            form_attributes,
            source,
            &facts.manager_calls[j],
        );
        let ghost one = findings::some_finding(findings::opt_finding(found));
        add_finding(errors, found);
        assert((middle + before) + one =~= middle + (before + one));
        j += 1;
    }
    let ghost calls = manager_call_findings(
        *index,
        src@,
        *facts,
        names,
        a,
        facts.manager_calls@.len() as int,
    );
    assert((start + accesses) + calls =~= start + (accesses + calls));
}

/// What is said of a head that is a typing error for a global property.
pub open spec fn head_message(head: Seq<char>, suggestion: Seq<char>) -> Seq<char> {
    "'"@ + head + "' не найдено в глобальном контексте платформы. Возможно, вы имели в виду '"@ + suggestion
        + "'."@
}

/// The finding that the head of an access makes by itself: it is bound nowhere, it is neither a
/// type, nor a global property, nor a manager, nor a member of the form, nor a common module of
/// the configuration, and it is a typing error for a global property.
pub open spec fn head_finding(
    index: PlatformIndex,
    src: Seq<char>,
    facts: AstFacts,
    in_form: bool,
    attributes: Option<Seq<Seq<char>>>,
    answers: Option<symbols::Answers>,
    dot: DotFact,
) -> Option<findings::FindingView> {
    let key = text::lowercase(dot.head@);
    if bound_somewhere(facts, key) || (attributes matches Some(names) && names.contains(key))
        || !identifier_like(dot.head@) || manager_of(key) is Some || platform::property_named(
        index.global_properties@,
        dot.head@,
    ) is Some || platform::type_named(index.types@, dot.head@) is Some || context_head(key) || (in_form
        && facts.has_directives && form_has_member(index, key)) || (answers matches Some(a) && (a.object)(
        "CommonModules"@,
        key,
    ) == Some(true)) {
        None
    } else {
        match fuzzy::typo_of(
            dot.head@,
            platform::property_names(index.global_properties@) + manager_names(),
        ) {
            None => None,
            Some((suggestion, confidence)) => Some(
                findings::finding_at(
                    src,
                    dot.head_byte as nat,
                    ExprErrorKind::UnknownGlobalProperty,
                    head_message(dot.head@, suggestion),
                    confidence,
                    Some(suggestion),
                ),
            ),
        }
    }
}

/// The findings of the heads of the first `n` accesses.
pub open spec fn head_findings_upto(
    index: PlatformIndex,
    src: Seq<char>,
    facts: AstFacts,
    in_form: bool,
    attributes: Option<Seq<Seq<char>>>,
    answers: Option<symbols::Answers>,
    n: int,
) -> Seq<findings::FindingView>
    decreases n,
{
    if n <= 0 {
        seq![]
    } else {
        head_findings_upto(index, src, facts, in_form, attributes, answers, n - 1)
            + findings::some_finding(
            head_finding(index, src, facts, in_form, attributes, answers, facts.dots@[n - 1]),
        )
    }
}

/// All findings on heads of accesses. In the module of a form whose attributes are not known
/// there is none.
pub open spec fn head_findings(
    index: PlatformIndex,
    src: Seq<char>,
    facts: AstFacts,
    in_form: bool,
    attributes: Option<Seq<Seq<char>>>,
    answers: Option<symbols::Answers>,
) -> Seq<findings::FindingView> {
    if in_form && attributes is None {
        seq![]
    } else {
        head_findings_upto(
            index,
            src,
            facts,
            in_form,
            attributes,
            answers,
            facts.dots@.len() as int,
        )
    }
}

/// The names of the global properties, then those of the managers.
fn head_candidates(index: &PlatformIndex) -> (r: Vec<String>)
    ensures
        text::texts(r@) == platform::property_names(index.global_properties@) + manager_names(),
{
    let mut out: Vec<String> = Vec::new();
    let mut i: usize = 0;
    while i < index.global_properties.len()
        invariant
            i <= index.global_properties.len(),
            text::texts(out@) == platform::property_names(index.global_properties@).take(i as int),
        decreases index.global_properties.len() - i,
    {
        let name = index.global_properties[i].name_ru.clone();
        proof {
            text::lemma_texts_push(out@, name);
            assert(platform::property_names(index.global_properties@).take(i + 1)
                =~= platform::property_names(index.global_properties@).take(i as int).push(name@));
        }
        out.push(name);
        i += 1;
    }
    assert(platform::property_names(index.global_properties@).take(i as int)
        =~= platform::property_names(index.global_properties@));
    let ghost before = out@;
    let mut managers: Vec<String> = vec![
        "Справочники".to_owned(),
        "Документы".to_owned(),
        "РегистрыСведений".to_owned(),
        "РегистрыНакопления".to_owned(),
        "РегистрыБухгалтерии".to_owned(),
        "РегистрыРасчета".to_owned(),
        "Перечисления".to_owned(),
        "ПланыВидовХарактеристик".to_owned(),
        "ПланыСчетов".to_owned(),
        "ПланыВидовРасчета".to_owned(),
        "БизнесПроцессы".to_owned(),
        "Задачи".to_owned(),
        "ПланыОбмена".to_owned(),
        "Константы".to_owned(),
        "Обработки".to_owned(),
        "Отчеты".to_owned(),
        "ЖурналыДокументов".to_owned(),
        "КритерииОтбора".to_owned(),
        "Последовательности".to_owned(),
    ];
    assert(text::texts(managers@) =~= manager_names());
    let ghost added = managers@;
    out.append(&mut managers);
    assert(text::texts(before + added) =~= text::texts(before) + text::texts(added));
    out
}

fn check_head<S: SymbolSource>(
    index: &PlatformIndex,
    src: &str,
    facts: &AstFacts,
    in_form: bool,
    form_attributes: Option<&Vec<String>>,
    symbols: Option<&S>,
    dot: &DotFact,
) -> (r: Option<ExprError>)
    requires
        findings::countable(src@),
    ensures
        findings::opt_finding(r) == head_finding(
            *index,
            src@,
            *facts,
            in_form,
            context_names::opt_names(form_attributes),
            symbols::answers_of(symbols),
            *dot,
        ),
{
    let key = to_lower(dot.head.as_str());
    if is_bound_somewhere(facts, key.as_str()) || is_attribute(form_attributes, key.as_str())
        || !is_identifier_like(dot.head.as_str()) || manager_collection_with_prefix(
        key.as_str(),
    ).is_some() {
        return None;
    }
    if index.find_global_property(dot.head.as_str()).is_some() || index.find_type(
        dot.head.as_str(),
    ).is_some() || is_context_head(key.as_str()) {
        return None;
    }
    if in_form && facts.has_directives && form_type_has_member(index, key.as_str()) {
        return None;
    }
    if let Some(source) = symbols {
        let answer = source.object_exists("CommonModules", key.as_str());
        if answer.is_some() && answer.unwrap() {
            return None;
        }
    }
    let names = head_candidates(index);
    match find_typo(dot.head.as_str(), &names) {
        None => None,
        Some((suggestion, confidence)) => {
            let mut message = "'".to_owned();
            message.append(dot.head.as_str());
            message.append("' не найдено в глобальном контексте платформы. Возможно, вы имели в виду '");
            message.append(suggestion.as_str());
            message.append("'.");
            Some(
                ExprError::at(
                    src,
                    dot.head_byte,
                    ExprErrorKind::UnknownGlobalProperty,
                    message,
                    confidence,
                    Some(suggestion),
                ),
            )
        },
    }
}

/// Check the heads of accesses that are typing errors for global properties.
pub(crate) fn check_global_property_heads<S: SymbolSource>(
    index: &PlatformIndex,
    src: &str,
    facts: &AstFacts,
    in_form: bool,
    form_attributes: Option<&Vec<String>>,
    symbols: Option<&S>,
    errors: &mut Vec<ExprError>,
)
    requires
        findings::countable(src@),
    ensures
        findings::finding_views(final(errors)@) == findings::finding_views(old(errors)@) + head_findings(
            *index,
            src@,
            *facts,
            in_form,
            context_names::opt_names(form_attributes),
            symbols::answers_of(symbols),
        ),
{
    let ghost start = findings::finding_views(errors@);
    let ghost names = context_names::opt_names(form_attributes);
    let ghost answers = symbols::answers_of(symbols);
    assert(start + Seq::<findings::FindingView>::empty() =~= start);
    if in_form && form_attributes.is_none() {
        return;
    }
    let mut i: usize = 0;
    while i < facts.dots.len()
        invariant
            findings::countable(src@),
            names == context_names::opt_names(form_attributes),
            answers == symbols::answers_of(symbols),
            i <= facts.dots.len(),
            findings::finding_views(errors@) == start + head_findings_upto(
                *index,
                src@,
                *facts,
                in_form,
                names,
                answers,
                i as int,
            ),
        decreases facts.dots.len() - i,
    {
        let ghost before = head_findings_upto(
            *index,
            src@,
            *facts,
            in_form,
            names,
            answers,
            i as int,
        );
        let found = check_head(index, src, facts, in_form, form_attributes, symbols, &facts.dots[i]);
        let ghost one = findings::some_finding(findings::opt_finding(found));
        add_finding(errors, found);
        assert((start + before) + one =~= start + (before + one));
        i += 1;
    }
}

/// A name that is bound anywhere in the module is never taken for an object of the
/// configuration.
pub proof fn law_bound_names_are_silent(
    index: PlatformIndex,
    src: Seq<char>,
    facts: AstFacts,
    path: Option<Seq<char>>,
    in_form: bool,
    attributes: Option<Seq<Seq<char>>>,
    a: symbols::Answers,
    dot: DotFact,
)
    requires
        bound_somewhere(facts, text::lowercase(dot.head@)),
    ensures
        access_finding(index, src, facts, path, in_form, attributes, a, dot) is None,
        head_finding(index, src, facts, in_form, attributes, Some(a), dot) is None,
{
}

/// A source that does not know keeps silent: where it can tell of no object whether it exists,
/// nothing is reported.
pub proof fn law_unknown_is_silent(
    index: PlatformIndex,
    src: Seq<char>,
    facts: AstFacts,
    path: Option<Seq<char>>,
    in_form: bool,
    attributes: Option<Seq<Seq<char>>>,
    a: symbols::Answers,
    dot: DotFact,
    call: ManagerCallFact,
)
    requires
        forall|c: Seq<char>, n: Seq<char>| #[trigger] (a.object)(c, n) is None,
    ensures
        access_finding(index, src, facts, path, in_form, attributes, a, dot) is None,
        manager_call_finding(index, src, facts, attributes, a, call) is None,
{
}

/// A source that does not know the variables of the application module turns the rule on common
/// modules off, and that rule only: what is reported is an object behind a manager.
pub proof fn law_unknown_variables_keep_objects_only(
    index: PlatformIndex,
    src: Seq<char>,
    facts: AstFacts,
    path: Option<Seq<char>>,
    in_form: bool,
    attributes: Option<Seq<Seq<char>>>,
    a: symbols::Answers,
    dot: DotFact,
)
    requires
        a.variables is None,
    ensures
        access_finding(index, src, facts, path, in_form, attributes, a, dot) matches Some(f)
            ==> f.kind == ExprErrorKind::UnknownMetadataObject,
{
}

/// A word is bound in a module where something assigns to it, where a loop runs over it or where
/// it is a parameter, whatever the letter case. Nothing is reported of a manager, of an object or
/// of a head of that name.
pub proof fn law_local_names_hide_the_configuration(
    index: PlatformIndex,
    src: Seq<char>,
    facts: AstFacts,
    path: Option<Seq<char>>,
    in_form: bool,
    attributes: Option<Seq<Seq<char>>>,
    a: symbols::Answers,
    dot: DotFact,
    call: ManagerCallFact,
    i: int,
)
    requires
        text::lowercase(call.collection@) == text::lowercase(dot.head@),
        ({
            ||| 0 <= i < facts.assigns@.len() && text::lowercase(facts.assigns@[i].name@) == text::lowercase(
                dot.head@,
            )
            ||| text::texts(facts.loop_vars@).contains(text::lowercase(dot.head@))
            ||| 0 <= i < facts.procs@.len() && text::texts(facts.procs@[i].params@).contains(
                text::lowercase(dot.head@),
            )
            ||| (attributes matches Some(names) && names.contains(text::lowercase(dot.head@)))
        }),
    ensures
        access_finding(index, src, facts, path, in_form, attributes, a, dot) is None,
        manager_call_finding(index, src, facts, attributes, a, call) is None,
        head_finding(index, src, facts, in_form, attributes, Some(a), dot) is None,
{
}

/// Nothing binds a word in a module.
pub open spec fn free_word(facts: AstFacts, attributes: Option<Seq<Seq<char>>>, key: Seq<char>) -> bool {
    &&& forall|i: int| 0 <= i < facts.assigns@.len() ==> text::lowercase((#[trigger] facts.assigns@[i]).name@) != key
    &&& !text::texts(facts.loop_vars@).contains(key)
    &&& forall|i: int| 0 <= i < facts.procs@.len() ==> !text::texts((#[trigger] facts.procs@[i]).params@).contains(key)
    &&& attributes matches Some(names) ==> !names.contains(key)
}

proof fn lemma_type_starting(types: Seq<Type>, prefix: Seq<char>, i: int) -> (at: int)
    requires
        0 <= i <= types.len(),
    ensures
        i <= at <= types.len(),
        at < types.len() ==> type_starting(types, prefix, i) == Some(types[at]) && text::starts_with(
            text::lowercase(types[at].name_ru@),
            prefix,
        ),
        at == types.len() ==> type_starting(types, prefix, i) is None,
        forall|k: int|
            i <= k < at ==> !text::starts_with(text::lowercase((#[trigger] types[k]).name_ru@), prefix),
    decreases types.len() - i,
{
    if i >= types.len() || text::starts_with(text::lowercase(types[i].name_ru@), prefix) {
        i
    } else {
        lemma_type_starting(types, prefix, i + 1)
    }
}

/// The manager of the objects of a kind is the first type whose Russian name begins with the name
/// of the manager and a dot, whatever the letter case.
pub proof fn law_manager_is_the_first_of_its_kind(index: PlatformIndex, prefix: Seq<char>, i: int)
    requires
        0 <= i < index.types@.len(),
    ensures
        text::starts_with(text::lowercase(index.types@[i].name_ru@), text::lowercase(prefix) + "."@) && (
        forall|k: int|
            0 <= k < i ==> !text::starts_with(
                text::lowercase((#[trigger] index.types@[k]).name_ru@),
                text::lowercase(prefix) + "."@,
            )) ==> object_manager(index, prefix) == Some(index.types@[i]),
        object_manager(index, prefix) is None ==> !text::starts_with(
            text::lowercase(index.types@[i].name_ru@),
            text::lowercase(prefix) + "."@,
        ),
{
    let at = lemma_type_starting(index.types@, text::lowercase(prefix) + "."@, 0);
    if at < i {
        assert(text::starts_with(
            text::lowercase(index.types@[at].name_ru@),
            text::lowercase(prefix) + "."@,
        ));
    }
}

/// A call of a method of an object that exists. Where the manager of the object is described, has
/// no such method and no such property, the configuration declares no such method and nothing
/// hides the collection, a name that is a typing error for a method of the manager is reported at
/// the method, with that method.
pub proof fn law_mistyped_manager_method_is_reported(
    index: PlatformIndex,
    src: Seq<char>,
    facts: AstFacts,
    attributes: Option<Seq<Seq<char>>>,
    a: symbols::Answers,
    call: ManagerCallFact,
    collection: Seq<char>,
    prefix: Seq<char>,
    ty: Type,
    suggestion: Seq<char>,
    confidence: findings::Confidence,
)
    requires
        free_word(facts, attributes, text::lowercase(call.collection@)),
        manager_of(text::lowercase(call.collection@)) == Some((collection, prefix)),
        (a.object)(collection, text::lowercase(call.object@)) == Some(true),
        object_manager(index, prefix) == Some(ty),
        forall|i: int|
            0 <= i < ty.methods@.len() ==> text::lowercase((#[trigger] ty.methods@[i]).name_ru@)
                != text::lowercase(call.method@) && text::lowercase(ty.methods@[i].name_en@)
                != text::lowercase(call.method@),
        forall|i: int|
            0 <= i < ty.properties@.len() ==> text::lowercase((#[trigger] ty.properties@[i]).name_ru@)
                != text::lowercase(call.method@) && text::lowercase(ty.properties@[i].name_en@)
                != text::lowercase(call.method@),
        !(a.declared)(text::lowercase(call.method@)),
        fuzzy::typo_of(call.method@, platform::method_names(ty.methods@)) == Some((suggestion, confidence)),
    ensures
        manager_call_finding(index, src, facts, attributes, a, call) matches Some(f) && f.kind
            == ExprErrorKind::UnknownManagerMethod && f.suggestion == Some(suggestion) && f.confidence
            == confidence && (f.line, f.col) == findings::position(src, call.method_byte as nat)
            && f.message == manager_message(call, suggestion),
{
    platform::law_members_are_methods_and_properties(ty, call.method@);
}

/// A call of a method of a manager is silent where the source does not say that the object exists:
/// where it says that there is none, and where it does not know. It is silent too where the word
/// is no collection, where the manager is not described, where it has the member in either
/// language, where the configuration declares the method anywhere, and where the method is like
/// none of the manager.
#[verifier::rlimit(40)]
pub proof fn law_manager_calls_that_are_silent(
    index: PlatformIndex,
    src: Seq<char>,
    facts: AstFacts,
    attributes: Option<Seq<Seq<char>>>,
    a: symbols::Answers,
    call: ManagerCallFact,
    i: int,
)
    ensures
        manager_of(text::lowercase(call.collection@)) is None ==> manager_call_finding(
            index,
            src,
            facts,
            attributes,
            a,
            call,
        ) is None,
        (a.declared)(text::lowercase(call.method@)) ==> manager_call_finding(
            index,
            src,
            facts,
            attributes,
            a,
            call,
        ) is None,
        manager_of(text::lowercase(call.collection@)) matches Some((collection, prefix)) ==> {
            &&& (a.object)(collection, text::lowercase(call.object@)) == Some(false) ==> manager_call_finding(
                index,
                src,
                facts,
                attributes,
                a,
                call,
            ) is None
            &&& (a.object)(collection, text::lowercase(call.object@)) is None ==> manager_call_finding(
                index,
                src,
                facts,
                attributes,
                a,
                call,
            ) is None
            &&& object_manager(index, prefix) is None ==> manager_call_finding(
                index,
                src,
                facts,
                attributes,
                a,
                call,
            ) is None
            &&& object_manager(index, prefix) matches Some(ty) ==> {
                &&& 0 <= i < ty.methods@.len() && (text::lowercase(ty.methods@[i].name_ru@)
                    == text::lowercase(call.method@) || text::lowercase(ty.methods@[i].name_en@)
                    == text::lowercase(call.method@)) ==> manager_call_finding(
                    index,
                    src,
                    facts,
                    attributes,
                    a,
                    call,
                ) is None
                &&& 0 <= i < ty.properties@.len() && (text::lowercase(ty.properties@[i].name_ru@)
                    == text::lowercase(call.method@) || text::lowercase(ty.properties@[i].name_en@)
                    == text::lowercase(call.method@)) ==> manager_call_finding(
                    index,
                    src,
                    facts,
                    attributes,
                    a,
                    call,
                ) is None
                &&& fuzzy::typo_of(call.method@, platform::method_names(ty.methods@)) is None
                    ==> manager_call_finding(index, src, facts, attributes, a, call) is None
            }
        },
{
    if let Some((collection, prefix)) = manager_of(text::lowercase(call.collection@)) {
        if let Some(ty) = object_manager(index, prefix) {
            platform::law_members_are_methods_and_properties(ty, call.method@);
        }
    }
}

/// An object behind a manager is reported exactly where the source says that there is none:
/// where nothing hides the manager and the name is no member of the manager itself. The finding
/// stands at the object, and suggests the object of the collection that the name is a typing
/// error for, if any. A collection says nothing of a common module, whatever else is known.
pub proof fn law_missing_object_is_reported(
    index: PlatformIndex,
    src: Seq<char>,
    facts: AstFacts,
    path: Option<Seq<char>>,
    in_form: bool,
    attributes: Option<Seq<Seq<char>>>,
    a: symbols::Answers,
    dot: DotFact,
    collection: Seq<char>,
    prefix: Seq<char>,
)
    requires
        free_word(facts, attributes, text::lowercase(dot.head@)),
        manager_of(text::lowercase(dot.head@)) == Some((collection, prefix)),
    ensures
        access_finding(index, src, facts, path, in_form, attributes, a, dot) is Some <==> (a.object)(
            collection,
            text::lowercase(dot.member@),
        ) == Some(false) && !manager_has_member(index, dot.head@, dot.member@),
        access_finding(index, src, facts, path, in_form, attributes, a, dot) matches Some(f) ==> f.kind
            == ExprErrorKind::UnknownMetadataObject && f.confidence == findings::Confidence::High && (f.line, f.col)
            == findings::position(src, dot.member_byte as nat) && (match (a.names)(collection) {
            Some(names) => match fuzzy::typo_of(dot.member@, names) {
                Some((s, _)) => f.suggestion == Some(s),
                None => f.suggestion is None,
            },
            None => f.suggestion is None,
        }),
{
}

/// A manager has a member where the type that the platform gives to it, with or without backticks,
/// has a method or a property of the name in either language.
pub proof fn law_members_of_a_manager(
    index: PlatformIndex,
    head: Seq<char>,
    member: Seq<char>,
    ty: Type,
)
    requires
        platform::property_named(index.global_properties@, head) matches Some(p) && platform::type_named(
            index.types@,
            text::trimmed(Edge::Backtick, p.value_type@),
        ) == Some(ty),
    ensures
        manager_has_member(index, head, member) <==> {
            ||| exists|i: int|
                0 <= i < ty.methods@.len() && (text::lowercase((#[trigger] ty.methods@[i]).name_ru@)
                    == text::lowercase(member) || text::lowercase(ty.methods@[i].name_en@)
                    == text::lowercase(member))
            ||| exists|j: int|
                0 <= j < ty.properties@.len() && (text::lowercase(
                    (#[trigger] ty.properties@[j]).name_ru@,
                ) == text::lowercase(member) || text::lowercase(ty.properties@[j].name_en@)
                    == text::lowercase(member))
        },
{
    platform::law_members_are_methods_and_properties(ty, member);
}

/// A member of a form: a property or a method of the type of forms, by its Russian name.
pub proof fn law_members_of_a_form(index: PlatformIndex, key: Seq<char>, ty: Type)
    requires
        platform::type_named(index.types@, FORM_TYPE@) == Some(ty),
    ensures
        form_has_member(index, key) <==> {
            ||| exists|i: int|
                0 <= i < ty.methods@.len() && text::lowercase((#[trigger] ty.methods@[i]).name_ru@) == key
            ||| exists|j: int|
                0 <= j < ty.properties@.len() && text::lowercase((#[trigger] ty.properties@[j]).name_ru@)
                    == key
        },
{
}

/// A call behind a name that is nothing known is reported as a common module that does not exist
/// exactly where the source says so: at the name, in a module without an object of its own. The
/// name is free, can be a name, is no collection, no variable of the application, no word of the
/// context, no type and no global property in either language, and no member of the form that the
/// module belongs to.
#[verifier::rlimit(40)]
pub proof fn law_missing_common_module_is_reported(
    index: PlatformIndex,
    src: Seq<char>,
    facts: AstFacts,
    path: Option<Seq<char>>,
    in_form: bool,
    attributes: Option<Seq<Seq<char>>>,
    a: symbols::Answers,
    dot: DotFact,
    variables: Seq<Seq<char>>,
)
    requires
        free_word(facts, attributes, text::lowercase(dot.head@)),
        manager_of(text::lowercase(dot.head@)) is None,
        a.variables == Some(variables),
        dot.member_is_call,
        identifier_like(dot.head@),
        !variables.contains(text::lowercase(dot.head@)),
        !context_head(text::lowercase(dot.head@)),
        forall|i: int|
            0 <= i < index.types@.len() ==> text::lowercase((#[trigger] index.types@[i]).name_ru@)
                != text::lowercase(dot.head@) && text::lowercase(index.types@[i].name_en@)
                != text::lowercase(dot.head@),
        forall|i: int|
            0 <= i < index.global_properties@.len() ==> text::lowercase(
                (#[trigger] index.global_properties@[i]).name_ru@,
            ) != text::lowercase(dot.head@) && text::lowercase(index.global_properties@[i].name_en@)
                != text::lowercase(dot.head@),
        in_form && facts.has_directives ==> !form_has_member(index, text::lowercase(dot.head@)),
        path is None || in_form || paths::common_module(path->0),
    ensures
        access_finding(index, src, facts, path, in_form, attributes, a, dot) is Some <==> (a.object)(
            "CommonModules"@,
            text::lowercase(dot.head@),
        ) == Some(false),
        access_finding(index, src, facts, path, in_form, attributes, a, dot) matches Some(f) ==> f.kind
            == ExprErrorKind::UnknownCommonModule && f.confidence == findings::Confidence::High && (f.line, f.col)
            == findings::position(src, dot.head_byte as nat) && (match (a.names)("CommonModules"@) {
            Some(names) => match fuzzy::typo_of(dot.head@, names) {
                Some((s, _)) => f.suggestion == Some(s),
                None => f.suggestion is None,
            },
            None => f.suggestion is None,
        }),
{
    platform::law_found_type_bears_the_name(index.types@, dot.head@);
    if let Some(t) = platform::type_named(index.types@, dot.head@) {
        let k = choose|k: int| 0 <= k < index.types@.len() && index.types@[k] == t;
        assert(text::lowercase(index.types@[k].name_ru@) != text::lowercase(dot.head@));
    }
    platform::law_property_is_found_by_either_name(index.global_properties@, dot.head@);
}

/// What keeps a name before a dot from being taken for a common module that does not exist: a
/// property without a call behind it, a variable of the application, a word of the context, a type
/// or a global property of the name, a member of the form of the module, and a module with an
/// object of its own.
pub proof fn law_names_that_are_no_common_modules(
    index: PlatformIndex,
    src: Seq<char>,
    facts: AstFacts,
    path: Option<Seq<char>>,
    in_form: bool,
    attributes: Option<Seq<Seq<char>>>,
    a: symbols::Answers,
    dot: DotFact,
    i: int,
)
    requires
        manager_of(text::lowercase(dot.head@)) is None,
        ({
            ||| !dot.member_is_call
            ||| (a.variables matches Some(names) && names.contains(text::lowercase(dot.head@)))
            ||| 0 <= i < index.types@.len() && text::lowercase(index.types@[i].name_ru@) == text::lowercase(
                dot.head@,
            )
            ||| 0 <= i < index.global_properties@.len() && text::lowercase(
                index.global_properties@[i].name_ru@,
            ) == text::lowercase(dot.head@)
            ||| in_form && facts.has_directives && form_has_member(index, text::lowercase(dot.head@))
            ||| (path matches Some(p) && !in_form && !paths::common_module(p))
            ||| text::lowercase(dot.head@) == text::lowercase("Объект"@)
            ||| text::lowercase(dot.head@) == text::lowercase("ЭтотОбъект"@)
            ||| text::lowercase(dot.head@) == text::lowercase("ЭтаФорма"@)
            ||| text::lowercase(dot.head@) == text::lowercase("Форма"@)
        }),
    ensures
        access_finding(index, src, facts, path, in_form, attributes, a, dot) is None,
{
    if 0 <= i < index.types@.len() {
        platform::law_type_is_found_by_either_name(index.types@, dot.head@, i);
    }
    if 0 <= i < index.global_properties@.len() && text::lowercase(index.global_properties@[i].name_ru@)
        == text::lowercase(dot.head@) {
        lemma_some_property(index.global_properties@, dot.head@, i);
    }
}

proof fn lemma_some_property(properties: Seq<Property>, name: Seq<char>, i: int)
    requires
        0 <= i < properties.len(),
        text::lowercase(properties[i].name_ru@) == text::lowercase(name),
    ensures
        platform::property_named(properties, name) is Some,
    decreases i,
{
    platform::law_property_is_found_by_either_name(properties, name);
    if exists|k: int|
        0 <= k < i && (text::lowercase((#[trigger] properties[k]).name_ru@) == text::lowercase(name) || (
        properties[k].name_en@.len() > 0 && text::lowercase(properties[k].name_en@) == text::lowercase(
            name,
        ))) {
        lemma_property_before(properties, name, i);
    }
}

proof fn lemma_property_before(properties: Seq<Property>, name: Seq<char>, i: int)
    requires
        0 <= i <= properties.len(),
        exists|k: int|
            0 <= k < i && (text::lowercase((#[trigger] properties[k]).name_ru@) == text::lowercase(name) || (
            properties[k].name_en@.len() > 0 && text::lowercase(properties[k].name_en@)
                == text::lowercase(name))),
    ensures
        platform::property_named(properties, name) is Some,
    decreases i,
{
    let k = choose|k: int|
        0 <= k < i && (text::lowercase((#[trigger] properties[k]).name_ru@) == text::lowercase(name) || (
        properties[k].name_en@.len() > 0 && text::lowercase(properties[k].name_en@) == text::lowercase(
            name,
        )));
    platform::law_property_is_found_by_either_name(properties, name);
    if exists|j: int|
        0 <= j < k && (text::lowercase((#[trigger] properties[j]).name_ru@) == text::lowercase(name) || (
        properties[j].name_en@.len() > 0 && text::lowercase(properties[j].name_en@) == text::lowercase(
            name,
        ))) {
        lemma_property_before(properties, name, k);
    } else {
        assert(platform::property_named(properties, name) == Some(properties[k]));
    }
}

/// A head of an access that nothing known bears is reported where it is a typing error for a
/// global property or for a collection: at the head, with the name that it is a typing error for.
/// A head that is like none is silent.
pub proof fn law_mistyped_head_is_reported(
    index: PlatformIndex,
    src: Seq<char>,
    facts: AstFacts,
    in_form: bool,
    attributes: Option<Seq<Seq<char>>>,
    answers: Option<symbols::Answers>,
    dot: DotFact,
)
    requires
        free_word(facts, attributes, text::lowercase(dot.head@)),
        manager_of(text::lowercase(dot.head@)) is None,
        identifier_like(dot.head@),
        !context_head(text::lowercase(dot.head@)),
        forall|i: int|
            0 <= i < index.types@.len() ==> text::lowercase((#[trigger] index.types@[i]).name_ru@)
                != text::lowercase(dot.head@) && text::lowercase(index.types@[i].name_en@)
                != text::lowercase(dot.head@),
        forall|i: int|
            0 <= i < index.global_properties@.len() ==> text::lowercase(
                (#[trigger] index.global_properties@[i]).name_ru@,
            ) != text::lowercase(dot.head@) && text::lowercase(index.global_properties@[i].name_en@)
                != text::lowercase(dot.head@),
        in_form && facts.has_directives ==> !form_has_member(index, text::lowercase(dot.head@)),
        answers matches Some(a) ==> (a.object)("CommonModules"@, text::lowercase(dot.head@)) != Some(true),
    ensures
        match fuzzy::typo_of(
            dot.head@,
            platform::property_names(index.global_properties@) + manager_names(),
        ) {
            Some((s, c)) => head_finding(index, src, facts, in_form, attributes, answers, dot) matches Some(f)
                && f.kind == ExprErrorKind::UnknownGlobalProperty && f.suggestion == Some(s) && f.confidence
                == c && (f.line, f.col) == findings::position(src, dot.head_byte as nat),
            None => head_finding(index, src, facts, in_form, attributes, answers, dot) is None,
        },
{
    platform::law_found_type_bears_the_name(index.types@, dot.head@);
    if let Some(t) = platform::type_named(index.types@, dot.head@) {
        let k = choose|k: int| 0 <= k < index.types@.len() && index.types@[k] == t;
        assert(text::lowercase(index.types@[k].name_ru@) != text::lowercase(dot.head@));
    }
    platform::law_property_is_found_by_either_name(index.global_properties@, dot.head@);
}

/// What keeps the head of an access from being taken for a typing error: a collection, a global
/// property, a type, a word of the context, a member of the form of the module, and a common
/// module that the source says exists.
pub proof fn law_known_heads_are_silent(
    index: PlatformIndex,
    src: Seq<char>,
    facts: AstFacts,
    in_form: bool,
    attributes: Option<Seq<Seq<char>>>,
    answers: Option<symbols::Answers>,
    dot: DotFact,
    i: int,
)
    requires
        ({
            ||| manager_of(text::lowercase(dot.head@)) is Some
            ||| 0 <= i < index.types@.len() && text::lowercase(index.types@[i].name_ru@) == text::lowercase(
                dot.head@,
            )
            ||| 0 <= i < index.global_properties@.len() && text::lowercase(
                index.global_properties@[i].name_ru@,
            ) == text::lowercase(dot.head@)
            ||| in_form && facts.has_directives && form_has_member(index, text::lowercase(dot.head@))
            ||| (answers matches Some(a) && (a.object)("CommonModules"@, text::lowercase(dot.head@)) == Some(
                true,
            ))
            ||| text::lowercase(dot.head@) == text::lowercase("Объект"@)
            ||| text::lowercase(dot.head@) == text::lowercase("ЭтотОбъект"@)
            ||| text::lowercase(dot.head@) == text::lowercase("ЭтаФорма"@)
            ||| text::lowercase(dot.head@) == text::lowercase("Форма"@)
        }),
    ensures
        head_finding(index, src, facts, in_form, attributes, answers, dot) is None,
{
    if 0 <= i < index.types@.len() {
        platform::law_type_is_found_by_either_name(index.types@, dot.head@, i);
    }
    if 0 <= i < index.global_properties@.len() && text::lowercase(index.global_properties@[i].name_ru@)
        == text::lowercase(dot.head@) {
        lemma_some_property(index.global_properties@, dot.head@, i);
    }
}

/// Every collection that a head can be a typing error for is a collection, by its own name.
pub proof fn law_suggested_collections_are_collections(i: int)
    requires
        0 <= i < manager_names().len(),
    ensures
        manager_of(text::lowercase(manager_names()[i])) is Some,
{
}

/// In a form whose attributes are not known nothing is reported of names, and without a source
/// nothing of objects.
pub proof fn law_unknown_form_is_silent(
    index: PlatformIndex,
    src: Seq<char>,
    facts: AstFacts,
    path: Option<Seq<char>>,
    attributes: Option<Seq<Seq<char>>>,
    in_form: bool,
    answers: Option<symbols::Answers>,
)
    ensures
        object_findings(index, src, facts, path, true, None, answers).len() == 0,
        head_findings(index, src, facts, true, None, answers).len() == 0,
        object_findings(index, src, facts, path, in_form, attributes, None).len() == 0,
{
}

/// Accesses are held against the configuration one by one, in the order of the module.
pub proof fn law_objects_are_checked_one_by_one(
    index: PlatformIndex,
    src: Seq<char>,
    facts: AstFacts,
    path: Option<Seq<char>>,
    in_form: bool,
    attributes: Option<Seq<Seq<char>>>,
    a: symbols::Answers,
    n: int,
)
    requires
        0 <= n <= facts.dots@.len(),
    ensures
        access_findings(index, src, facts, path, in_form, attributes, a, n).len() <= n,
        forall|k: int|
            0 <= k <= n ==> (#[trigger] access_findings(index, src, facts, path, in_form, attributes, a, k)).is_prefix_of(
                access_findings(index, src, facts, path, in_form, attributes, a, n),
            ),
        forall|f: findings::FindingView| #[trigger]
            access_findings(index, src, facts, path, in_form, attributes, a, n).contains(f) <==> exists|i: int|
            0 <= i < n && access_finding(index, src, facts, path, in_form, attributes, a, #[trigger] facts.dots@[i]) == Some(f),
    decreases n,
{
    if n > 0 {
        law_objects_are_checked_one_by_one(index, src, facts, path, in_form, attributes, a, n - 1);
        let before = access_findings(index, src, facts, path, in_form, attributes, a, n - 1);
        let all = access_findings(index, src, facts, path, in_form, attributes, a, n);
        findings::lemma_one_more(before, access_finding(index, src, facts, path, in_form, attributes, a, facts.dots@[n - 1]));
        assert forall|f: findings::FindingView| #[trigger] all.contains(f) <==> exists|i: int|
            0 <= i < n && access_finding(index, src, facts, path, in_form, attributes, a, #[trigger] facts.dots@[i]) == Some(f) by {
            if before.contains(f) {
                let i = choose|i: int| 0 <= i < n - 1 && access_finding(index, src, facts, path, in_form, attributes, a, #[trigger] facts.dots@[i]) == Some(f);
                assert(access_finding(index, src, facts, path, in_form, attributes, a, facts.dots@[i]) == Some(f));
            }
        }
        assert forall|k: int| 0 <= k <= n implies (#[trigger] access_findings(index, src, facts, path, in_form, attributes, a, k)).is_prefix_of(all) by {
            if k < n {
                findings::lemma_prefix(access_findings(index, src, facts, path, in_form, attributes, a, k), before, all);
            } else {
                assert(all =~= all.subrange(0, all.len() as int));
            }
        }
    }
}

/// Calls of methods of managers are checked one by one, in the order of the module.
pub proof fn law_manager_calls_are_checked_one_by_one(
    index: PlatformIndex,
    src: Seq<char>,
    facts: AstFacts,
    attributes: Option<Seq<Seq<char>>>,
    a: symbols::Answers,
    n: int,
)
    requires
        0 <= n <= facts.manager_calls@.len(),
    ensures
        manager_call_findings(index, src, facts, attributes, a, n).len() <= n,
        forall|k: int|
            0 <= k <= n ==> (#[trigger] manager_call_findings(index, src, facts, attributes, a, k)).is_prefix_of(
                manager_call_findings(index, src, facts, attributes, a, n),
            ),
        forall|f: findings::FindingView| #[trigger]
            manager_call_findings(index, src, facts, attributes, a, n).contains(f) <==> exists|i: int|
            0 <= i < n && manager_call_finding(index, src, facts, attributes, a, #[trigger] facts.manager_calls@[i]) == Some(f),
    decreases n,
{
    if n > 0 {
        law_manager_calls_are_checked_one_by_one(index, src, facts, attributes, a, n - 1);
        let before = manager_call_findings(index, src, facts, attributes, a, n - 1);
        let all = manager_call_findings(index, src, facts, attributes, a, n);
        findings::lemma_one_more(before, manager_call_finding(index, src, facts, attributes, a, facts.manager_calls@[n - 1]));
        assert forall|f: findings::FindingView| #[trigger] all.contains(f) <==> exists|i: int|
            0 <= i < n && manager_call_finding(index, src, facts, attributes, a, #[trigger] facts.manager_calls@[i]) == Some(f) by {
            if before.contains(f) {
                let i = choose|i: int| 0 <= i < n - 1 && manager_call_finding(index, src, facts, attributes, a, #[trigger] facts.manager_calls@[i]) == Some(f);
                assert(manager_call_finding(index, src, facts, attributes, a, facts.manager_calls@[i]) == Some(f));
            }
        }
        assert forall|k: int| 0 <= k <= n implies (#[trigger] manager_call_findings(index, src, facts, attributes, a, k)).is_prefix_of(all) by {
            if k < n {
                findings::lemma_prefix(manager_call_findings(index, src, facts, attributes, a, k), before, all);
            } else {
                assert(all =~= all.subrange(0, all.len() as int));
            }
        }
    }
}

/// Heads of accesses are checked one by one, in the order of the module.
pub proof fn law_heads_are_checked_one_by_one(
    index: PlatformIndex,
    src: Seq<char>,
    facts: AstFacts,
    in_form: bool,
    attributes: Option<Seq<Seq<char>>>,
    answers: Option<symbols::Answers>,
    n: int,
)
    requires
        0 <= n <= facts.dots@.len(),
    ensures
        head_findings_upto(index, src, facts, in_form, attributes, answers, n).len() <= n,
        forall|k: int|
            0 <= k <= n ==> (#[trigger] head_findings_upto(index, src, facts, in_form, attributes, answers, k)).is_prefix_of(
                head_findings_upto(index, src, facts, in_form, attributes, answers, n),
            ),
        forall|f: findings::FindingView| #[trigger]
            head_findings_upto(index, src, facts, in_form, attributes, answers, n).contains(f) <==> exists|i: int|
            0 <= i < n && head_finding(index, src, facts, in_form, attributes, answers, #[trigger] facts.dots@[i]) == Some(f),
    decreases n,
{
    if n > 0 {
        law_heads_are_checked_one_by_one(index, src, facts, in_form, attributes, answers, n - 1);
        let before = head_findings_upto(index, src, facts, in_form, attributes, answers, n - 1);
        let all = head_findings_upto(index, src, facts, in_form, attributes, answers, n);
        findings::lemma_one_more(before, head_finding(index, src, facts, in_form, attributes, answers, facts.dots@[n - 1]));
        assert forall|f: findings::FindingView| #[trigger] all.contains(f) <==> exists|i: int|
            0 <= i < n && head_finding(index, src, facts, in_form, attributes, answers, #[trigger] facts.dots@[i]) == Some(f) by {
            if before.contains(f) {
                let i = choose|i: int| 0 <= i < n - 1 && head_finding(index, src, facts, in_form, attributes, answers, #[trigger] facts.dots@[i]) == Some(f);
                assert(head_finding(index, src, facts, in_form, attributes, answers, facts.dots@[i]) == Some(f));
            }
        }
        assert forall|k: int| 0 <= k <= n implies (#[trigger] head_findings_upto(index, src, facts, in_form, attributes, answers, k)).is_prefix_of(all) by {
            if k < n {
                findings::lemma_prefix(head_findings_upto(index, src, facts, in_form, attributes, answers, k), before, all);
            } else {
                assert(all =~= all.subrange(0, all.len() as int));
            }
        }
    }
}

/// What is found of objects in a module is what is found of its accesses and what is found of its
/// calls of managers; of a form this needs its attributes.
pub proof fn law_objects_of_a_module(
    index: PlatformIndex,
    src: Seq<char>,
    facts: AstFacts,
    path: Option<Seq<char>>,
    in_form: bool,
    attributes: Option<Seq<Seq<char>>>,
    a: symbols::Answers,
    i: int,
    f: findings::FindingView,
)
    requires
        in_form ==> attributes is Some,
    ensures
        0 <= i < facts.dots@.len() && access_finding(
            index,
            src,
            facts,
            path,
            in_form,
            attributes,
            a,
            facts.dots@[i],
        ) == Some(f) ==> object_findings(index, src, facts, path, in_form, attributes, Some(a)).contains(f),
        0 <= i < facts.manager_calls@.len() && manager_call_finding(
            index,
            src,
            facts,
            attributes,
            a,
            facts.manager_calls@[i],
        ) == Some(f) ==> object_findings(index, src, facts, path, in_form, attributes, Some(a)).contains(f),
        0 <= i < facts.dots@.len() && head_finding(
            index,
            src,
            facts,
            in_form,
            attributes,
            Some(a),
            facts.dots@[i],
        ) == Some(f) ==> head_findings(index, src, facts, in_form, attributes, Some(a)).contains(f),
{
    let dots = facts.dots@.len() as int;
    let calls = facts.manager_calls@.len() as int;
    law_objects_are_checked_one_by_one(index, src, facts, path, in_form, attributes, a, dots);
    law_manager_calls_are_checked_one_by_one(index, src, facts, attributes, a, calls);
    law_heads_are_checked_one_by_one(index, src, facts, in_form, attributes, Some(a), dots);
    let first = access_findings(index, src, facts, path, in_form, attributes, a, dots);
    let second = manager_call_findings(index, src, facts, attributes, a, calls);
    let all = object_findings(index, src, facts, path, in_form, attributes, Some(a));
    assert(all == first + second);
    if first.contains(f) {
        let k = choose|k: int| 0 <= k < first.len() && first[k] == f;
        assert(all[k] == f);
    }
    if second.contains(f) {
        let k = choose|k: int| 0 <= k < second.len() && second[k] == f;
        assert(all[first.len() + k] == f);
    }
}

/// What a manager of the platform stands for is a collection of a configuration, one of those whose
/// objects an index knows.
#[verifier::rlimit(40)]
pub proof fn law_managers_stand_for_collections(key: Seq<char>)
    ensures
        manager_of(key) matches Some((collection, _)) ==> layout::collections().contains(collection),
        manager_of(key) is Some ==> exists|i: int|
            0 <= i < manager_names().len() && key == text::lowercase(#[trigger] manager_names()[i]),
{
    let all = layout::collections();
    let names = manager_names();
    assert(all.len() == 26 && names.len() == 19);
    if let Some((c, _)) = manager_of(key) {
        assert(all[2] == "Catalogs"@ && names[0] == "Справочники"@);
        assert(all[1] == "Documents"@ && names[1] == "Документы"@);
        assert(all[3] == "InformationRegisters"@ && names[2] == "РегистрыСведений"@);
        assert(all[4] == "AccumulationRegisters"@ && names[3] == "РегистрыНакопления"@);
        assert(all[5] == "AccountingRegisters"@ && names[4] == "РегистрыБухгалтерии"@);
        assert(all[6] == "CalculationRegisters"@ && names[5] == "РегистрыРасчета"@);
        assert(all[17] == "Enums"@ && names[6] == "Перечисления"@);
        assert(all[10] == "ChartsOfCharacteristicTypes"@ && names[7] == "ПланыВидовХарактеристик"@);
        assert(all[9] == "ChartsOfAccounts"@ && names[8] == "ПланыСчетов"@);
        assert(all[11] == "ChartsOfCalculationTypes"@ && names[9] == "ПланыВидовРасчета"@);
        assert(all[12] == "BusinessProcesses"@ && names[10] == "БизнесПроцессы"@);
        assert(all[13] == "Tasks"@ && names[11] == "Задачи"@);
        assert(all[14] == "ExchangePlans"@ && names[12] == "ПланыОбмена"@);
        assert(all[15] == "Constants"@ && names[13] == "Константы"@);
        assert(all[8] == "DataProcessors"@ && names[14] == "Обработки"@);
        assert(all[7] == "Reports"@ && names[15] == "Отчеты"@);
        assert(all[16] == "DocumentJournals"@ && names[16] == "ЖурналыДокументов"@);
        assert(all[22] == "FilterCriteria"@ && names[17] == "КритерииОтбора"@);
        assert(all[24] == "Sequences"@ && names[18] == "Последовательности"@);
    }
}

/// What is said of a manager and of a head names them as they are written, and what is suggested.
pub proof fn law_messages_name_what_they_speak_of(call: ManagerCallFact, head: Seq<char>, suggestion: Seq<char>)
    ensures
        text::holds(manager_message(call, suggestion), call.method@),
        text::holds(manager_message(call, suggestion), call.object@),
        text::holds(manager_message(call, suggestion), suggestion),
        text::holds(head_message(head, suggestion), head),
        text::holds(head_message(head, suggestion), suggestion),
{
    assert(manager_message(call, suggestion) =~= ("У '"@ + call.collection@ + "."@ + call.object@ + "' нет метода '"@) + call.method@ + ("'. Возможно, вы имели в виду '"@ + suggestion + "'."@));
    text::law_beginnings_and_ends("У '"@ + call.collection@ + "."@ + call.object@ + "' нет метода '"@, call.method@, "'. Возможно, вы имели в виду '"@ + suggestion + "'."@);
    assert(manager_message(call, suggestion) =~= ("У '"@ + call.collection@ + "."@) + call.object@ + ("' нет метода '"@ + call.method@ + "'. Возможно, вы имели в виду '"@ + suggestion + "'."@));
    text::law_beginnings_and_ends("У '"@ + call.collection@ + "."@, call.object@, "' нет метода '"@ + call.method@ + "'. Возможно, вы имели в виду '"@ + suggestion + "'."@);
    assert(manager_message(call, suggestion) =~= ("У '"@ + call.collection@ + "."@ + call.object@ + "' нет метода '"@ + call.method@ + "'. Возможно, вы имели в виду '"@) + suggestion + ("'."@));
    text::law_beginnings_and_ends("У '"@ + call.collection@ + "."@ + call.object@ + "' нет метода '"@ + call.method@ + "'. Возможно, вы имели в виду '"@, suggestion, "'."@);
    assert(head_message(head, suggestion) =~= ("'"@) + head + ("' не найдено в глобальном контексте платформы. Возможно, вы имели в виду '"@ + suggestion + "'."@));
    text::law_beginnings_and_ends("'"@, head, "' не найдено в глобальном контексте платформы. Возможно, вы имели в виду '"@ + suggestion + "'."@);
    assert(head_message(head, suggestion) =~= ("'"@ + head + "' не найдено в глобальном контексте платформы. Возможно, вы имели в виду '"@) + suggestion + ("'."@));
    text::law_beginnings_and_ends("'"@ + head + "' не найдено в глобальном контексте платформы. Возможно, вы имели в виду '"@, suggestion, "'."@);
}

} // verus!
