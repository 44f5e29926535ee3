//! Names that the context of a module takes.
//!
//! `Parameters = New Structure` in the module of a managed form makes no variable: it assigns
//! to a read-only property of the form, and fails when it runs. The same holds of read-only
//! properties of the global context in any module.
//!
//! A name is free where it is bound locally: as a parameter, or by a declaration in its
//! procedure or in the module. An attribute of a form goes before the context too. A procedure
//! without context does not see the form, and a form whose module holds no directives is an
//! ordinary form, with another context.
use crate::facts::{AssignFact, AstFacts, ProcScope};
use crate::findings;
use crate::findings::{add_finding, Confidence, ExprError, ExprErrorKind};
use crate::platform;
use crate::platform::{PlatformIndex, Property};
use crate::text;
use crate::text::{holds_text, same_text, to_lower};
use vstd::prelude::*;

verus! {

/// The type of the context of a managed form.
pub const FORM_TYPE: &'static str = "ФормаКлиентскогоПриложения";

/// The procedure, from number `i` on, in which a byte lies.
pub open spec fn proc_at(procs: Seq<ProcScope>, byte: int, i: int) -> Option<ProcScope>
    decreases procs.len() - i,
{
    if i < 0 || i >= procs.len() {
        None
    } else if procs[i].byte_start <= byte < procs[i].byte_end {
        Some(procs[i])
    } else {
        proc_at(procs, byte, i + 1)
    }
}

/// The procedure in which a byte lies.
pub fn scope_of<'a>(facts: &'a AstFacts, byte: usize) -> (r: Option<&'a ProcScope>)
    ensures
        match r {
            Some(p) => proc_at(facts.procs@, byte as int, 0) == Some(*p),
            None => proc_at(facts.procs@, byte as int, 0) is None,
        },
{
    let mut i: usize = 0;
    while i < facts.procs.len()
        invariant
            i <= facts.procs.len(),
            proc_at(facts.procs@, byte as int, 0) == proc_at(facts.procs@, byte as int, i as int),
        decreases facts.procs.len() - i,
    {
        if facts.procs[i].contains(byte) {
            return Some(&facts.procs[i]);
        }
        i += 1;
    }
    None
}

/// The assignment is a declaration, outside all procedures, of a lower-case name.
pub open spec fn declares_in_module(facts: AstFacts, a: AssignFact, key: Seq<char>) -> bool {
    a.declaration && proc_at(facts.procs@, a.byte as int, 0) is None && text::lowercase(a.name@) == key
}

/// The assignment is a declaration, in a procedure, of a lower-case name.
pub open spec fn declares_in_proc(p: ProcScope, a: AssignFact, key: Seq<char>) -> bool {
    a.declaration && p.byte_start <= a.byte < p.byte_end && text::lowercase(a.name@) == key
}

/// A lower-case name is bound: by a declaration in the module, as a parameter of the
/// procedure, or by a declaration in it.
pub open spec fn bound_locally(facts: AstFacts, scope: Option<ProcScope>, key: Seq<char>) -> bool {
    ||| exists|i: int|
        0 <= i < facts.assigns@.len() && declares_in_module(facts, #[trigger] facts.assigns@[i], key)
    ||| (scope matches Some(p) && (text::texts(p.params@).contains(key) || exists|i: int|
        0 <= i < facts.assigns@.len() && declares_in_proc(p, #[trigger] facts.assigns@[i], key)))
}

fn is_bound_locally(facts: &AstFacts, scope: Option<&ProcScope>, key: &str) -> (r: bool)
    ensures
        r == bound_locally(
            *facts,
            (match scope {
                Some(p) => Some(*p),
                None => None,
            }),
            key@,
        ),
{
    if let Some(p) = scope {
        if holds_text(&p.params, key) {
            return true;
        }
    }
    let mut i: usize = 0;
    while i < facts.assigns.len()
        invariant
            i <= facts.assigns.len(),
            forall|k: int|
                0 <= k < i ==> !declares_in_module(*facts, #[trigger] facts.assigns@[k], key@),
            scope matches Some(p) ==> forall|k: int|
                0 <= k < i ==> !declares_in_proc(*p, #[trigger] facts.assigns@[k], key@),
        decreases facts.assigns.len() - i,
    {
        let a = &facts.assigns[i];
        if a.declaration && same_text(to_lower(a.name.as_str()).as_str(), key) {
            if scope_of(facts, a.byte).is_none() {
                assert(declares_in_module(*facts, facts.assigns@[i as int], key@));
                return true;
            }
            if let Some(p) = scope {
                if p.contains(a.byte) {
                    assert(declares_in_proc(*p, facts.assigns@[i as int], key@));
                    return true;
                }
            }
        }
        i += 1;
    }
    false
}

/// What is said of a name that a member of the context takes.
pub open spec fn shadow_message(name: Seq<char>, declaration: bool, member: Seq<char>) -> Seq<char> {
    if declaration {
        "Имя '"@ + name + "' занято "@ + member + ". Объявление 'Перем "@ + name
            + "' конфликтует с контекстом модуля: имя разрешается в член контекста, а не в локальную переменную. Переименуйте переменную."@
    } else {
        "Имя '"@ + name + "' занято "@ + member
            + ": локальная переменная не создастся, присваивание упадёт в рантайме («Поле объекта недоступно для записи»). Переименуйте переменную."@
    }
}

pub open spec fn shadow_finding(src: Seq<char>, a: AssignFact, member: Seq<char>) -> findings::FindingView {
    findings::finding_at(
        src,
        a.byte as nat,
        ExprErrorKind::ShadowedContextName,
        shadow_message(a.name@, a.declaration, member),
        Confidence::High,
        None,
    )
}

/// Some read-only property of a list has a lower-case Russian name.
pub open spec fn readonly_property(properties: Seq<Property>, key: Seq<char>) -> bool {
    exists|i: int|
        0 <= i < properties.len() && (#[trigger] properties[i]).readonly && text::lowercase(
            properties[i].name_ru@,
        ) == key
}

/// The context of a managed form has a read-only property with a lower-case name.
pub open spec fn form_takes(index: PlatformIndex, key: Seq<char>) -> bool {
    platform::type_named(index.types@, FORM_TYPE@) matches Some(ty) && readonly_property(
        ty.properties@,
        key,
    )
}

/// The global context has a read-only property with the name.
pub open spec fn global_takes(index: PlatformIndex, name: Seq<char>) -> bool {
    platform::property_named(index.global_properties@, name) matches Some(p) && p.readonly
}

/// The finding that an assignment or a declaration makes. The form goes before the global
/// context. In the module of a form the global context counts only where the attributes of the
/// form are known, or in a procedure without context.
pub open spec fn name_finding(
    index: PlatformIndex,
    src: Seq<char>,
    facts: AstFacts,
    in_form: bool,
    attributes: Option<Seq<Seq<char>>>,
    a: AssignFact,
) -> Option<findings::FindingView> {
    let key = text::lowercase(a.name@);
    let scope = proc_at(facts.procs@, a.byte as int, 0);
    let no_context = scope matches Some(p) && p.no_context;
    if !a.declaration && bound_locally(facts, scope, key) {
        None
    } else if attributes matches Some(names) && names.contains(key) {
        None
    } else if in_form && facts.has_directives && !no_context && form_takes(index, key) {
        Some(shadow_finding(src, a, "свойством ФормаКлиентскогоПриложения (только чтение)"@))
    } else if (!in_form || attributes is Some || no_context) && global_takes(index, a.name@) {
        Some(shadow_finding(src, a, "свойством глобального контекста (только чтение)"@))
    } else {
        None
    }
}

/// The findings of the first `n` assignments and declarations.
pub open spec fn name_findings(
    index: PlatformIndex,
    src: Seq<char>,
    facts: AstFacts,
    in_form: bool,
    attributes: Option<Seq<Seq<char>>>,
    n: int,
) -> Seq<findings::FindingView>
    decreases n,
{
    if n <= 0 {
        seq![]
    } else {
        name_findings(index, src, facts, in_form, attributes, n - 1) + findings::some_finding(
            name_finding(index, src, facts, in_form, attributes, facts.assigns@[n - 1]),
        )
    }
}

fn has_readonly_property(properties: &Vec<Property>, key: &str) -> (r: bool)
    ensures
        r == readonly_property(properties@, key@),
{
    let mut i: usize = 0;
    while i < properties.len()
        invariant
            i <= properties.len(),
            forall|k: int|
                0 <= k < i ==> !((#[trigger] properties@[k]).readonly && text::lowercase(
                    properties@[k].name_ru@,
                ) == key@),
        decreases properties.len() - i,
    {
        let p = &properties[i];
        if p.readonly && same_text(to_lower(p.name_ru.as_str()).as_str(), key) {
            assert(properties@[i as int].readonly);
            return true;
        }
        i += 1;
    }
    false
}

/// Report a name that a member of the context takes.
fn emit(src: &str, fact: &AssignFact, member_kind: &str) -> (r: ExprError)
    requires
        findings::countable(src@),
    ensures
        r@ == shadow_finding(src@, *fact, member_kind@),
{
    let name = fact.name.as_str();
    let mut message = "Имя '".to_owned();
    message.append(name);
    message.append("' занято ");
    message.append(member_kind);
    if fact.declaration {
        message.append(". Объявление 'Перем ");
        message.append(name);
        message.append(
            "' конфликтует с контекстом модуля: имя разрешается в член контекста, а не в локальную переменную. Переименуйте переменную.",
        );
    } else {
        message.append(
            ": локальная переменная не создастся, присваивание упадёт в рантайме («Поле объекта недоступно для записи»). Переименуйте переменную.",
        );
    }
    ExprError::at(
        src,
        fact.byte,
        ExprErrorKind::ShadowedContextName,
        message,
        Confidence::High,
        None,
    )
}

/// The contents of an optional list of names.
pub open spec fn opt_names(o: Option<&Vec<String>>) -> Option<Seq<Seq<char>>> {
    match o {
        Some(v) => Some(text::texts(v@)),
        None => None,
    }
}

fn check_name(
    index: &PlatformIndex,
    src: &str,
    facts: &AstFacts,
    in_form: bool,
    form_attributes: Option<&Vec<String>>,
    fact: &AssignFact,
) -> (r: Option<ExprError>)
    requires
        findings::countable(src@),
    ensures
        findings::opt_finding(r) == name_finding(
            *index,
            src@,
            *facts,
            in_form,
            opt_names(form_attributes),
            *fact,
        ),
{
    let key = to_lower(fact.name.as_str());
    let scope = scope_of(facts, fact.byte);
    let no_context = match scope {
        Some(p) => p.no_context,
        None => false,
    };
    if !fact.declaration && is_bound_locally(facts, scope, key.as_str()) {
        return None;
    }
    if let Some(names) = form_attributes {
        if holds_text(names, key.as_str()) {
            return None;
        }
    }
    if in_form && facts.has_directives && !no_context {
        if let Some(ty) = index.find_type(FORM_TYPE) {
            if has_readonly_property(&ty.properties, key.as_str()) {
                return Some(emit(src, fact, "свойством ФормаКлиентскогоПриложения (только чтение)"));
            }
        }
    }
    if !in_form || form_attributes.is_some() || no_context {
        if let Some(p) = index.find_global_property(fact.name.as_str()) {
            if p.readonly {
                return Some(emit(src, fact, "свойством глобального контекста (только чтение)"));
            }
        }
    }
    None
}

/// Check assignments and declarations against the context of the module. `in_form` tells that
/// it is the module of a form; `form_attributes` holds the names of the attributes of the form
/// in lower case, where they are known.
pub fn check_shadowed_context_names(
    index: &PlatformIndex,
    src: &str,
    facts: &AstFacts,
    in_form: bool,
    form_attributes: Option<&Vec<String>>,
    errors: &mut Vec<ExprError>,
)
    requires
        findings::countable(src@),
    ensures
        findings::finding_views(final(errors)@) == findings::finding_views(old(errors)@) + name_findings(
            *index,
            src@,
            *facts,
            in_form,
            opt_names(form_attributes),
            facts.assigns.len() as int,
        ),
{
    let ghost start = findings::finding_views(errors@);
    let ghost names = opt_names(form_attributes);
    assert(start + Seq::<findings::FindingView>::empty() =~= start);
    let mut i: usize = 0;
    while i < facts.assigns.len()
        invariant
            findings::countable(src@),
            names == opt_names(form_attributes),
            i <= facts.assigns.len(),
            findings::finding_views(errors@) == start + name_findings(
                *index,
                src@,
                *facts,
                in_form,
                names,
                i as int,
            ),
        decreases facts.assigns.len() - i,
    {
        let ghost before = name_findings(*index, src@, *facts, in_form, names, i as int);
        let found = check_name(index, src, facts, in_form, form_attributes, &facts.assigns[i]);
        let ghost one = findings::some_finding(findings::opt_finding(found));
        add_finding(errors, found);
        assert((start + before) + one =~= start + (before + one));
        i += 1;
    }
}

/// A parameter of a procedure frees a name in it: an assignment to it is never reported.
pub proof fn law_parameter_frees_name(
    index: PlatformIndex,
    src: Seq<char>,
    facts: AstFacts,
    in_form: bool,
    attributes: Option<Seq<Seq<char>>>,
    a: AssignFact,
    p: ProcScope,
)
    requires
        !a.declaration,
        proc_at(facts.procs@, a.byte as int, 0) == Some(p),
        text::texts(p.params@).contains(text::lowercase(a.name@)),
    ensures
        name_finding(index, src, facts, in_form, attributes, a) is None,
{
}

/// An attribute of the form frees its name in the whole module.
pub proof fn law_attribute_frees_name(
    index: PlatformIndex,
    src: Seq<char>,
    facts: AstFacts,
    in_form: bool,
    attributes: Seq<Seq<char>>,
    a: AssignFact,
)
    requires
        attributes.contains(text::lowercase(a.name@)),
    ensures
        name_finding(index, src, facts, in_form, Some(attributes), a) is None,
{
}

/// Without known attributes, an assignment in the module of a form is reported only where the
/// form takes the name, or in a procedure without context.
pub proof fn law_unknown_attributes_keep_global_names(
    index: PlatformIndex,
    src: Seq<char>,
    facts: AstFacts,
    a: AssignFact,
)
    ensures
        name_finding(index, src, facts, true, None, a) is Some ==> form_takes(
            index,
            text::lowercase(a.name@),
        ) || (proc_at(facts.procs@, a.byte as int, 0) matches Some(p) && p.no_context),
{
}

proof fn lemma_proc_at(procs: Seq<ProcScope>, byte: int, i: int) -> (at: int)
    requires
        0 <= i <= procs.len(),
    ensures
        i <= at <= procs.len(),
        at < procs.len() ==> proc_at(procs, byte, i) == Some(procs[at]) && procs[at].byte_start <= byte
            < procs[at].byte_end,
        at == procs.len() ==> proc_at(procs, byte, i) is None,
        forall|k: int| i <= k < at ==> !((#[trigger] procs[k]).byte_start <= byte < procs[k].byte_end),
    decreases procs.len() - i,
{
    if i >= procs.len() || procs[i].byte_start <= byte < procs[i].byte_end {
        i
    } else {
        lemma_proc_at(procs, byte, i + 1)
    }
}

/// A byte belongs to the first procedure whose bytes hold it, and to none where none does. The
/// first byte of a procedure belongs to it, the byte behind its last one does not.
pub proof fn law_procedure_of_a_byte(procs: Seq<ProcScope>, byte: int, i: int)
    requires
        0 <= i < procs.len(),
    ensures
        procs[i].byte_start <= byte < procs[i].byte_end && (forall|k: int|
            0 <= k < i ==> byte < (#[trigger] procs[k]).byte_start || byte >= procs[k].byte_end) ==> proc_at(
            procs,
            byte,
            0,
        ) == Some(procs[i]),
        proc_at(procs, byte, 0) is None ==> byte < procs[i].byte_start || byte >= procs[i].byte_end,
        proc_at(procs, byte, 0) matches Some(p) ==> p.byte_start <= byte < p.byte_end,
{
    let at = lemma_proc_at(procs, byte, 0);
    if at < i {
        assert(procs[at].byte_start <= byte < procs[at].byte_end);
    }
}

/// A declared variable frees its name, whatever the letter case: one that the module declares
/// outside of its procedures frees it everywhere, one that a procedure declares frees it there.
pub proof fn law_declared_variable_frees_name(
    index: PlatformIndex,
    src: Seq<char>,
    facts: AstFacts,
    in_form: bool,
    attributes: Option<Seq<Seq<char>>>,
    a: AssignFact,
    i: int,
)
    requires
        !a.declaration,
        0 <= i < facts.assigns@.len(),
        facts.assigns@[i].declaration,
        text::lowercase(facts.assigns@[i].name@) == text::lowercase(a.name@),
    ensures
        (forall|k: int|
            0 <= k < facts.procs@.len() ==> facts.assigns@[i].byte < (#[trigger] facts.procs@[k]).byte_start
                || facts.assigns@[i].byte >= facts.procs@[k].byte_end) ==> name_finding(
            index,
            src,
            facts,
            in_form,
            attributes,
            a,
        ) is None,
        (proc_at(facts.procs@, a.byte as int, 0) matches Some(p) && p.byte_start <= facts.assigns@[i].byte
            < p.byte_end) ==> name_finding(index, src, facts, in_form, attributes, a) is None,
{
    let key = text::lowercase(a.name@);
    let at = lemma_proc_at(facts.procs@, facts.assigns@[i].byte as int, 0);
    if forall|k: int|
        0 <= k < facts.procs@.len() ==> facts.assigns@[i].byte < (#[trigger] facts.procs@[k]).byte_start
            || facts.assigns@[i].byte >= facts.procs@[k].byte_end {
        assert(declares_in_module(facts, facts.assigns@[i], key));
    }
    if let Some(p) = proc_at(facts.procs@, a.byte as int, 0) {
        if p.byte_start <= facts.assigns@[i].byte < p.byte_end {
            assert(declares_in_proc(p, facts.assigns@[i], key));
        }
    }
}

/// Nothing frees the name of an assignment: it is a declaration itself, or neither the module
/// outside of its procedures nor the procedure of the assignment declares it and it is no
/// parameter there. It is no attribute either.
pub open spec fn not_freed(facts: AstFacts, attributes: Option<Seq<Seq<char>>>, a: AssignFact) -> bool {
    let key = text::lowercase(a.name@);
    &&& attributes matches Some(names) ==> !names.contains(key)
    &&& !a.declaration ==> {
        &&& forall|i: int|
            0 <= i < facts.assigns@.len() && (#[trigger] facts.assigns@[i]).declaration && text::lowercase(
                facts.assigns@[i].name@,
            ) == key ==> proc_at(facts.procs@, facts.assigns@[i].byte as int, 0) is Some
        &&& proc_at(facts.procs@, a.byte as int, 0) matches Some(p) ==> !text::texts(p.params@).contains(key)
            && forall|i: int|
            0 <= i < facts.assigns@.len() && (#[trigger] facts.assigns@[i]).declaration && text::lowercase(
                facts.assigns@[i].name@,
            ) == key ==> facts.assigns@[i].byte < p.byte_start || facts.assigns@[i].byte >= p.byte_end
    }
}

/// An assignment or a declaration that nothing frees is reported, for sure and at its place, where
/// a read-only property takes the name: in a form with directives one of the form, by its Russian
/// name and not in a procedure without the context of the form; outside of forms, in a form whose
/// attributes are known and in a procedure without context a global property, in either language.
pub proof fn law_taken_name_is_reported(
    index: PlatformIndex,
    src: Seq<char>,
    facts: AstFacts,
    in_form: bool,
    attributes: Option<Seq<Seq<char>>>,
    a: AssignFact,
    form: platform::Type,
    i: int,
)
    requires
        not_freed(facts, attributes, a),
    ensures
        in_form && facts.has_directives && (proc_at(facts.procs@, a.byte as int, 0) matches Some(p)
            ==> !p.no_context) && platform::type_named(index.types@, FORM_TYPE@) == Some(form) && 0 <= i
            < form.properties@.len() && form.properties@[i].readonly && text::lowercase(
            form.properties@[i].name_ru@,
        ) == text::lowercase(a.name@) ==> (name_finding(index, src, facts, in_form, attributes, a) matches Some(
            f,
        ) && f.kind == ExprErrorKind::ShadowedContextName && f.confidence == Confidence::High && (
        f.line,
        f.col,
    ) == findings::position(src, a.byte as nat)),
        (!in_form || attributes is Some || (proc_at(facts.procs@, a.byte as int, 0) matches Some(p)
            && p.no_context)) && (platform::property_named(index.global_properties@, a.name@) matches Some(p)
            && p.readonly) ==> (name_finding(index, src, facts, in_form, attributes, a) matches Some(f)
            && f.kind == ExprErrorKind::ShadowedContextName && f.confidence == Confidence::High && (
        f.line,
        f.col,
    ) == findings::position(src, a.byte as nat)),
{
    let key = text::lowercase(a.name@);
    let scope = proc_at(facts.procs@, a.byte as int, 0);
    if !a.declaration && bound_locally(facts, scope, key) {
        if exists|i: int|
            0 <= i < facts.assigns@.len() && declares_in_module(facts, #[trigger] facts.assigns@[i], key) {
            let i = choose|i: int|
                0 <= i < facts.assigns@.len() && declares_in_module(facts, #[trigger] facts.assigns@[i], key);
            assert(facts.assigns@[i].declaration);
        } else if let Some(p) = scope {
            let i = choose|i: int|
                0 <= i < facts.assigns@.len() && declares_in_proc(p, #[trigger] facts.assigns@[i], key);
            assert(facts.assigns@[i].declaration);
        }
    }
}

/// A name that no read-only property takes is silent: none of the form by its Russian name, and
/// no global one. A property that can be written takes no name.
pub proof fn law_name_that_nothing_takes_is_silent(
    index: PlatformIndex,
    src: Seq<char>,
    facts: AstFacts,
    in_form: bool,
    attributes: Option<Seq<Seq<char>>>,
    a: AssignFact,
)
    requires
        platform::type_named(index.types@, FORM_TYPE@) matches Some(form) ==> forall|i: int|
            0 <= i < form.properties@.len() && text::lowercase((#[trigger] form.properties@[i]).name_ru@)
                == text::lowercase(a.name@) ==> !form.properties@[i].readonly,
        platform::property_named(index.global_properties@, a.name@) matches Some(p) ==> !p.readonly,
    ensures
        name_finding(index, src, facts, in_form, attributes, a) is None,
{
}

/// Assignments and declarations are checked one by one, in the order of the module.
pub proof fn law_names_are_checked_one_by_one(
    index: PlatformIndex,
    src: Seq<char>,
    facts: AstFacts,
    in_form: bool,
    attributes: Option<Seq<Seq<char>>>,
    n: int,
)
    requires
        0 <= n <= facts.assigns@.len(),
    ensures
        name_findings(index, src, facts, in_form, attributes, n).len() <= n,
        forall|k: int|
            0 <= k <= n ==> (#[trigger] name_findings(index, src, facts, in_form, attributes, k)).is_prefix_of(
                name_findings(index, src, facts, in_form, attributes, n),
            ),
        forall|f: findings::FindingView| #[trigger]
            name_findings(index, src, facts, in_form, attributes, n).contains(f) <==> exists|i: int|
            0 <= i < n && name_finding(index, src, facts, in_form, attributes, #[trigger] facts.assigns@[i]) == Some(f),
    decreases n,
{
    if n > 0 {
        law_names_are_checked_one_by_one(index, src, facts, in_form, attributes, n - 1);
        let before = name_findings(index, src, facts, in_form, attributes, n - 1);
        let all = name_findings(index, src, facts, in_form, attributes, n);
        findings::lemma_one_more(before, name_finding(index, src, facts, in_form, attributes, facts.assigns@[n - 1]));
        assert forall|f: findings::FindingView| #[trigger] all.contains(f) <==> exists|i: int|
            0 <= i < n && name_finding(index, src, facts, in_form, attributes, #[trigger] facts.assigns@[i]) == Some(f) by {
            if before.contains(f) {
                let i = choose|i: int| 0 <= i < n - 1 && name_finding(index, src, facts, in_form, attributes, #[trigger] facts.assigns@[i]) == Some(f);
                assert(name_finding(index, src, facts, in_form, attributes, facts.assigns@[i]) == Some(f));
            }
        }
        assert forall|k: int| 0 <= k <= n implies (#[trigger] name_findings(index, src, facts, in_form, attributes, k)).is_prefix_of(all) by {
            if k < n {
                findings::lemma_prefix(name_findings(index, src, facts, in_form, attributes, k), before, all);
            } else {
                assert(all =~= all.subrange(0, all.len() as int));
            }
        }
    }
}

} // verus!
