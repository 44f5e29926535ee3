//! Checks of accesses, of new values and of calls against the platform help.
use crate::check;
use crate::check::validate_method_call;
use crate::distance;
use crate::distance::closest_str;
use crate::facts::{CallFact, DotFact, NewFact};
use crate::findings;
use crate::findings::{add_finding, add_hint, Confidence, ExprError, ExprErrorKind};
use crate::fuzzy;
use crate::fuzzy::find_typo;
use crate::platform;
use crate::platform::{
    find_value, member_names, names_of_values, type_has_member, type_names, PlatformIndex, Type,
};
use crate::scope;
use crate::scope::ScopeMap;
use crate::symbols;
use crate::symbols::SymbolSource;
use crate::text;
use crate::text::{holds_text, same_text, to_lower};
use vstd::prelude::*;

verus! {

/// Types whose members are not in the platform help: they come from a query, from the
/// columns of a table, from keys, from a form or from a schema.
pub open spec fn dynamic_members(lower: Seq<char>) -> bool {
    ||| lower == "выборкаизрезультатазапроса"@
    ||| lower == "выборкаданных"@
    ||| lower == "строкатаблицызначений"@
    ||| lower == "строкадеревазначений"@
    ||| lower == "структура"@
    ||| lower == "фиксированнаяструктура"@
    ||| lower == "форма"@
    ||| lower == "управляемаяформа"@
    ||| lower == "элементыформы"@
    ||| lower == "объектxdto"@
    ||| lower == "значениеxdto"@
}

fn is_dynamic_member_type(name_ru: &str) -> (r: bool)
    ensures
        r == dynamic_members(text::lowercase(name_ru@)),
{
    let lower = to_lower(name_ru);
    let n = lower.as_str();
    same_text(n, "выборкаизрезультатазапроса") || same_text(n, "выборкаданных") || same_text(
        n,
        "строкатаблицызначений",
    ) || same_text(n, "строкадеревазначений") || same_text(n, "структура") || same_text(
        n,
        "фиксированнаяструктура",
    ) || same_text(n, "форма") || same_text(n, "управляемаяформа") || same_text(n, "элементыформы")
        || same_text(n, "объектxdto") || same_text(n, "значениеxdto")
}

/// The contents of an optional map of scopes.
pub open spec fn scopes_view(map: Option<&ScopeMap>) -> Option<Seq<scope::ScopeView>> {
    match map {
        Some(m) => Some(scope::scope_views(m.scopes@)),
        None => None,
    }
}

/// The type of the head of an access: the type that it names, or that of the variable.
pub open spec fn head_type(
    index: PlatformIndex,
    dot: DotFact,
    scopes: Option<Seq<scope::ScopeView>>,
) -> Option<Type> {
    match platform::type_named(index.types@, dot.head@) {
        Some(t) => Some(t),
        None => match scopes {
            Some(s) => match scope::var_type(s, dot.head_byte as nat, dot.head@) {
                Some(name) => platform::type_named(index.types@, name),
                None => None,
            },
            None => None,
        },
    }
}

/// What is said of a value that an enumeration does not have.
pub open spec fn enum_message(ty: Type, member: Seq<char>, suggestion: Option<Seq<char>>) -> Seq<char> {
    "Значение '"@ + member + "' не существует у типа-перечисления '"@ + ty.name_ru@ + "'."@
        + findings::hint(" Возможно, вы имели в виду '"@, suggestion)
}

/// What is said of a member that a type does not have.
pub open spec fn member_message(ty: Type, member: Seq<char>, suggestion: Option<Seq<char>>) -> Seq<char> {
    "У типа '"@ + ty.name_ru@ + "' нет члена '"@ + member + "'."@ + findings::hint(
        " Возможно: '"@,
        suggestion,
    )
}

/// The finding that an access `head.member` makes: the head is a type, or a variable whose
/// type is known, and that type has no such member.
pub open spec fn dot_finding(
    index: PlatformIndex,
    src: Seq<char>,
    dot: DotFact,
    scopes: Option<Seq<scope::ScopeView>>,
) -> Option<findings::FindingView> {
    match head_type(index, dot, scopes) {
        None => None,
        Some(ty) => {
            let key = text::lowercase(dot.member@);
            if ty.enum_values@.len() > 0 {
                if platform::value_at(ty.enum_values@, key, 0) is Some {
                    None
                } else {
                    let suggestion = distance::closest(
                        dot.member@,
                        platform::value_names(ty.enum_values@),
                    );
                    Some(
                        findings::finding_at(
                            src,
                            dot.member_byte as nat,
                            ExprErrorKind::UnknownEnumValue,
                            enum_message(ty, dot.member@, suggestion),
                            Confidence::High,
                            suggestion,
                        ),
                    )
                }
            } else if dynamic_members(text::lowercase(ty.name_ru@)) || platform::has_member(ty, key) {
                None
            } else {
                let suggestion = distance::closest(
                    dot.member@,
                    platform::method_names(ty.methods@) + platform::property_names(ty.properties@),
                );
                Some(
                    findings::finding_at(
                        src,
                        dot.member_byte as nat,
                        ExprErrorKind::UnknownTypeMember,
                        member_message(ty, dot.member@, suggestion),
                        Confidence::Low,
                        suggestion,
                    ),
                )
            }
        },
    }
}

/// The findings of the first `n` accesses.
pub open spec fn dot_findings(
    index: PlatformIndex,
    src: Seq<char>,
    dots: Seq<DotFact>,
    scopes: Option<Seq<scope::ScopeView>>,
    n: int,
) -> Seq<findings::FindingView>
    decreases n,
{
    if n <= 0 {
        seq![]
    } else {
        dot_findings(index, src, dots, scopes, n - 1) + findings::some_finding(
            dot_finding(index, src, dots[n - 1], scopes),
        )
    }
}

fn find_head_type<'a>(index: &'a PlatformIndex, dot: &DotFact, scope_map: Option<&ScopeMap>) -> (r: Option<
    &'a Type,
>)
    ensures
        match r {
            Some(t) => head_type(*index, *dot, scopes_view(scope_map)) == Some(*t),
            None => head_type(*index, *dot, scopes_view(scope_map)) is None,
        },
{
    if let Some(t) = index.find_type(dot.head.as_str()) {
        return Some(t);
    }
    match scope_map {
        Some(map) => match map.type_of_var(dot.head_byte, dot.head.as_str()) {
            Some(name) => index.find_type(name.as_str()),
            None => None,
        },
        None => None,
    }
}

fn check_dot(index: &PlatformIndex, src: &str, dot: &DotFact, scope_map: Option<&ScopeMap>) -> (r: Option<
    ExprError,
>)
    requires
        findings::countable(src@),
    ensures
        findings::opt_finding(r) == dot_finding(*index, src@, *dot, scopes_view(scope_map)),
{
    let ty = match find_head_type(index, dot, scope_map) {
        Some(t) => t,
        None => return None,
    };
    let member = dot.member.as_str();
    let key = to_lower(member);
    if ty.is_enum() {
        if find_value(&ty.enum_values, key.as_str()).is_some() {
            return None;
        }
        let allowed = names_of_values(&ty.enum_values);
        let suggestion = closest_str(member, &allowed);
        let mut message = "Значение '".to_owned();
        message.append(member);
        message.append("' не существует у типа-перечисления '");
        message.append(ty.name_ru.as_str());
        message.append("'.");
        add_hint(&mut message, " Возможно, вы имели в виду '", &suggestion);
        return Some(
            ExprError::at(
                src,
                dot.member_byte,
                ExprErrorKind::UnknownEnumValue,
                message,
                Confidence::High,
                suggestion,
            ),
        );
    }
    if is_dynamic_member_type(ty.name_ru.as_str()) || type_has_member(ty, key.as_str()) {
        return None;
    }
    let allowed = member_names(ty);
    let suggestion = closest_str(member, &allowed);
    let mut message = "У типа '".to_owned();
    message.append(ty.name_ru.as_str());
    message.append("' нет члена '");
    message.append(member);
    message.append("'.");
    add_hint(&mut message, " Возможно: '", &suggestion);
    Some(
        ExprError::at(
            src,
            dot.member_byte,
            ExprErrorKind::UnknownTypeMember,
            message,
            Confidence::Low,
            suggestion,
        ),
    )
}

/// Check accesses to members of platform types.
pub(crate) fn check_type_dot_members(
    index: &PlatformIndex,
    src: &str,
    dots: &Vec<DotFact>,
    scope_map: Option<&ScopeMap>,
    errors: &mut Vec<ExprError>,
)
    requires
        findings::countable(src@),
    ensures
        findings::finding_views(final(errors)@) == findings::finding_views(old(errors)@) + dot_findings(
            *index,
            src@,
            dots@,
            scopes_view(scope_map),
            dots.len() as int,
        ),
{
    let ghost start = findings::finding_views(errors@);
    let mut i: usize = 0;
    assert(start + Seq::<findings::FindingView>::empty() =~= start);
    while i < dots.len()
        invariant
            findings::countable(src@),
            i <= dots.len(),
            findings::finding_views(errors@) == start + dot_findings(
                *index,
                src@,
                dots@,
                scopes_view(scope_map),
                i as int,
            ),
        decreases dots.len() - i,
    {
        let ghost before = dot_findings(*index, src@, dots@, scopes_view(scope_map), i as int);
        let found = check_dot(index, src, &dots[i], scope_map);
        let ghost one = findings::some_finding(findings::opt_finding(found));
        add_finding(errors, found);
        assert((start + before) + one =~= start + (before + one));
        i += 1;
    }
}

/// What is said of a type that does not exist.
pub open spec fn new_message(name: Seq<char>, suggestion: Option<Seq<char>>) -> Seq<char> {
    "Тип '"@ + name + "' не найден в платформенном контексте (Новый '"@ + name + "')."@
        + findings::hint(" Возможно: '"@, suggestion)
}

/// The finding that `New name` makes: the platform has no type of that name.
pub open spec fn new_finding(index: PlatformIndex, src: Seq<char>, n: NewFact) -> Option<
    findings::FindingView,
> {
    if platform::type_named(index.types@, n.name@) is Some {
        None
    } else {
        let suggestion = distance::closest(n.name@, platform::names_of_types(index.types@));
        Some(
            findings::finding_at(
                src,
                n.byte as nat,
                ExprErrorKind::UnknownNewType,
                new_message(n.name@, suggestion),
                Confidence::Low,
                suggestion,
            ),
        )
    }
}

/// The findings of the first `n` new values.
pub open spec fn new_findings(index: PlatformIndex, src: Seq<char>, news: Seq<NewFact>, n: int) -> Seq<
    findings::FindingView,
>
    decreases n,
{
    if n <= 0 {
        seq![]
    } else {
        new_findings(index, src, news, n - 1) + findings::some_finding(
            new_finding(index, src, news[n - 1]),
        )
    }
}

fn check_new(index: &PlatformIndex, src: &str, n: &NewFact) -> (r: Option<ExprError>)
    requires
        findings::countable(src@),
    ensures
        findings::opt_finding(r) == new_finding(*index, src@, *n),
{
    let name = n.name.as_str();
    if index.find_type(name).is_some() {
        return None;
    }
    let all = type_names(&index.types);
    let suggestion = closest_str(name, &all);
    let mut message = "Тип '".to_owned();
    message.append(name);
    message.append("' не найден в платформенном контексте (Новый '");
    message.append(name);
    message.append("').");
    add_hint(&mut message, " Возможно: '", &suggestion);
    Some(
        ExprError::at(
            src,
            n.byte,
            ExprErrorKind::UnknownNewType,
            message,
            Confidence::Low,
            suggestion,
        ),
    )
}

/// Check the types of new values.
pub(crate) fn check_new_expressions(
    index: &PlatformIndex,
    src: &str,
    news: &Vec<NewFact>,
    errors: &mut Vec<ExprError>,
)
    requires
        findings::countable(src@),
    ensures
        findings::finding_views(final(errors)@) == findings::finding_views(old(errors)@) + new_findings(
            *index,
            src@,
            news@,
            news.len() as int,
        ),
{
    let ghost start = findings::finding_views(errors@);
    let mut i: usize = 0;
    assert(start + Seq::<findings::FindingView>::empty() =~= start);
    while i < news.len()
        invariant
            findings::countable(src@),
            i <= news.len(),
            findings::finding_views(errors@) == start + new_findings(*index, src@, news@, i as int),
        decreases news.len() - i,
    {
        let ghost before = new_findings(*index, src@, news@, i as int);
        let found = check_new(index, src, &news[i]);
        let ghost one = findings::some_finding(findings::opt_finding(found));
        add_finding(errors, found);
        assert((start + before) + one =~= start + (before + one));
        i += 1;
    }
}

/// The names of the first `n` global methods: of each the Russian one, and the English one
/// where there is one.
pub open spec fn global_names(methods: Seq<platform::Method>, n: int) -> Seq<Seq<char>>
    decreases n,
{
    if n <= 0 {
        seq![]
    } else {
        let m = methods[n - 1];
        let with_ru = global_names(methods, n - 1).push(m.name_ru@);
        if m.name_en@.len() > 0 {
            with_ru.push(m.name_en@)
        } else {
            with_ru
        }
    }
}

fn global_method_names(index: &PlatformIndex) -> (r: Vec<String>)
    ensures
        text::texts(r@) == global_names(index.global_methods@, index.global_methods.len() as int),
{
    let mut out: Vec<String> = Vec::new();
    assert(text::texts(out@) =~= Seq::<Seq<char>>::empty());
    let mut i: usize = 0;
    while i < index.global_methods.len()
        invariant
            i <= index.global_methods.len(),
            text::texts(out@) == global_names(index.global_methods@, i as int),
        decreases index.global_methods.len() - i,
    {
        let m = &index.global_methods[i];
        let ru = m.name_ru.clone();
        proof {
            text::lemma_texts_push(out@, ru);
        }
        out.push(ru);
        if !m.name_en.as_str().is_empty() {
            let en = m.name_en.clone();
            proof {
                text::lemma_texts_push(out@, en);
            }
            out.push(en);
        }
        i += 1;
    }
    out
}

/// What is said of a call that is a typing error for a global method.
pub open spec fn typo_message(name: Seq<char>, suggestion: Seq<char>) -> Seq<char> {
    "Глобальный метод '"@ + name
        + "' не найден в платформенном контексте. Возможно, вы имели в виду '"@ + suggestion + "'."@
}

/// What is said of a call that the module does not declare, though the configuration does.
pub open spec fn invisible_message(name: Seq<char>) -> Seq<char> {
    "Метод '"@ + name
        + "' не объявлен в этом модуле. В конфигурации он есть, но отсюда может быть не виден — проверьте правила видимости."@
}

/// What is said of a call that nothing declares.
pub open spec fn undeclared_message(name: Seq<char>) -> Seq<char> {
    "Метод '"@ + name + "' не объявлен в этом модуле и не найден в платформенном контексте."@
}

/// The call is seen from the module through the source of names: the module of the owner or
/// a global common module exports it.
pub open spec fn exported(
    key: Seq<char>,
    answers: Option<symbols::Answers>,
    owner_exports: Option<Seq<Seq<char>>>,
) -> bool {
    (owner_exports matches Some(names) && names.contains(key)) || (answers matches Some(a)
        && (a.global_export)(key))
}

/// The finding of a call that the platform does not offer. A name that is near a global
/// method is a typing error; any other name is only reported for a whole module (`strict`),
/// and not where the source of names shows that it can be called.
pub open spec fn unknown_call_finding(
    index: PlatformIndex,
    src: Seq<char>,
    call: CallFact,
    strict: bool,
    answers: Option<symbols::Answers>,
    owner_exports: Option<Seq<Seq<char>>>,
) -> Option<findings::FindingView> {
    let key = text::lowercase(call.name@);
    let names = global_names(index.global_methods@, index.global_methods@.len() as int);
    match fuzzy::typo_of(call.name@, names) {
        Some((suggestion, confidence)) => Some(
            findings::finding_at(
                src,
                call.byte as nat,
                ExprErrorKind::UnknownGlobalMethod,
                typo_message(call.name@, suggestion),
                confidence,
                Some(suggestion),
            ),
        ),
        None => if !strict || exported(key, answers, owner_exports) {
            None
        } else if answers matches Some(a) && (a.declared)(key) {
            Some(
                findings::finding_at(
                    src,
                    call.byte as nat,
                    ExprErrorKind::UndeclaredMethod,
                    invisible_message(call.name@),
                    Confidence::Low,
                    None,
                ),
            )
        } else {
            Some(
                findings::finding_at(
                    src,
                    call.byte as nat,
                    ExprErrorKind::UndeclaredMethod,
                    undeclared_message(call.name@),
                    Confidence::High,
                    None,
                ),
            )
        },
    }
}

/// The finding that a call `name(...)` makes. A name that the module itself declares is not
/// looked at, nor is a method of some type, which its own module can call without a prefix.
pub open spec fn call_finding(
    index: PlatformIndex,
    src: Seq<char>,
    call: CallFact,
    own: Option<Seq<Seq<char>>>,
    strict: bool,
    answers: Option<symbols::Answers>,
    owner_exports: Option<Seq<Seq<char>>>,
) -> Option<findings::FindingView> {
    let key = text::lowercase(call.name@);
    if own matches Some(names) && names.contains(key) {
        None
    } else {
        match platform::method_named(index.global_methods@, call.name@) {
            Some(m) => if check::accepts(m, call.arg_count as nat) {
                None
            } else {
                Some(
                    findings::finding_at(
                        src,
                        call.byte as nat,
                        ExprErrorKind::WrongArgumentCount,
                        check::wrong_count_message(m.name_ru@, call.arg_count as nat),
                        Confidence::High,
                        None,
                    ),
                )
            },
            None => if platform::some_type_method(index.types@, key) {
                None
            } else {
                unknown_call_finding(index, src, call, strict, answers, owner_exports)
            },
        }
    }
}

/// The findings of the first `n` calls.
pub open spec fn call_findings(
    index: PlatformIndex,
    src: Seq<char>,
    calls: Seq<CallFact>,
    own: Option<Seq<Seq<char>>>,
    strict: bool,
    answers: Option<symbols::Answers>,
    owner_exports: Option<Seq<Seq<char>>>,
    n: int,
) -> Seq<findings::FindingView>
    decreases n,
{
    if n <= 0 {
        seq![]
    } else {
        call_findings(index, src, calls, own, strict, answers, owner_exports, n - 1)
            + findings::some_finding(
            call_finding(index, src, calls[n - 1], own, strict, answers, owner_exports),
        )
    }
}

/// The contents of an optional list of names.
pub open spec fn opt_names(o: Option<&Vec<String>>) -> Option<Seq<Seq<char>>> {
    match o {
        Some(v) => Some(text::texts(v@)),
        None => None,
    }
}

fn check_unknown_call<S: SymbolSource>(
    index: &PlatformIndex,
    src: &str,
    call: &CallFact,
    strict_unknown: bool,
    symbols: Option<&S>,
    owner_exports: Option<&Vec<String>>,
) -> (r: Option<ExprError>)
    requires
        findings::countable(src@),
    ensures
        findings::opt_finding(r) == unknown_call_finding(
            *index,
            src@,
            *call,
            strict_unknown,
            symbols::answers_of(symbols),
            opt_names(owner_exports),
        ),
{
    let name = call.name.as_str();
    let names = global_method_names(index);
    if let Some((suggestion, confidence)) = find_typo(name, &names) {
        let mut message = "Глобальный метод '".to_owned();
        message.append(name);
        message.append("' не найден в платформенном контексте. Возможно, вы имели в виду '");
        message.append(suggestion.as_str());
        message.append("'.");
        return Some(
            ExprError::at(
                src,
                call.byte,
                ExprErrorKind::UnknownGlobalMethod,
                message,
                confidence,
                Some(suggestion),
            ),
        );
    }
    if !strict_unknown {
        return None;
    }
    let key = to_lower(name);
    let is_owner_export = match owner_exports {
        Some(list) => holds_text(list, key.as_str()),
        None => false,
    };
    let is_global_export = match symbols {
        Some(s) => s.is_global_export(key.as_str()),
        None => false,
    };
    if is_owner_export || is_global_export {
        return None;
    }
    let elsewhere = match symbols {
        Some(s) => s.method_exists(key.as_str()),
        None => false,
    };
    let mut message = "Метод '".to_owned();
    message.append(name);
    if elsewhere {
        message.append(
            "' не объявлен в этом модуле. В конфигурации он есть, но отсюда может быть не виден — проверьте правила видимости.",
        );
        Some(
            ExprError::at(
                src,
                call.byte,
                ExprErrorKind::UndeclaredMethod,
                message,
                Confidence::Low,
                None,
            ),
        )
    } else {
        message.append("' не объявлен в этом модуле и не найден в платформенном контексте.");
        Some(
            ExprError::at(
                src,
                call.byte,
                ExprErrorKind::UndeclaredMethod,
                message,
                Confidence::High,
                None,
            ),
        )
    }
}

fn check_call<S: SymbolSource>(
    index: &PlatformIndex,
    src: &str,
    call: &CallFact,
    user_symbols: Option<&Vec<String>>,
    strict_unknown: bool,
    symbols: Option<&S>,
    owner_exports: Option<&Vec<String>>,
) -> (r: Option<ExprError>)
    requires
        findings::countable(src@),
    ensures
        findings::opt_finding(r) == call_finding(
            *index,
            src@,
            *call,
            opt_names(user_symbols),
            strict_unknown,
            symbols::answers_of(symbols),
            opt_names(owner_exports),
        ),
{
    let key = to_lower(call.name.as_str());
    if let Some(list) = user_symbols {
        if holds_text(list, key.as_str()) {
            return None;
        }
    }
    if index.find_global_method(call.name.as_str()).is_none() {
        if index.is_type_method(key.as_str()) {
            return None;
        }
        return check_unknown_call(index, src, call, strict_unknown, symbols, owner_exports);
    }
    let result = validate_method_call(index, call.name.as_str(), call.arg_count);
    if result.valid {
        return None;
    }
    Some(
        ExprError::at(
            src,
            call.byte,
            ExprErrorKind::WrongArgumentCount,
            result.message,
            Confidence::High,
            None,
        ),
    )
}

/// Check calls without a prefix.
pub(crate) fn check_global_calls<S: SymbolSource>(
    index: &PlatformIndex,
    src: &str,
    calls: &Vec<CallFact>,
    user_symbols: Option<&Vec<String>>,
    strict_unknown: bool,
    symbols: Option<&S>,
    owner_exports: Option<&Vec<String>>,
    errors: &mut Vec<ExprError>,
)
    requires
        findings::countable(src@),
    ensures
        findings::finding_views(final(errors)@) == findings::finding_views(old(errors)@) + call_findings(
            *index,
            src@,
            calls@,
            opt_names(user_symbols),
            strict_unknown,
            symbols::answers_of(symbols),
            opt_names(owner_exports),
            calls.len() as int,
        ),
{
    let ghost start = findings::finding_views(errors@);
    let ghost own = opt_names(user_symbols);
    let ghost answers = symbols::answers_of(symbols);
    let ghost owner = opt_names(owner_exports);
    let mut i: usize = 0;
    assert(start + Seq::<findings::FindingView>::empty() =~= start);
    while i < calls.len()
        invariant
            findings::countable(src@),
            own == opt_names(user_symbols),
            answers == symbols::answers_of(symbols),
            owner == opt_names(owner_exports),
            i <= calls.len(),
            findings::finding_views(errors@) == start + call_findings(
                *index,
                src@,
                calls@,
                own,
                strict_unknown,
                answers,
                owner,
                i as int,
            ),
        decreases calls.len() - i,
    {
        let ghost before = call_findings(
            *index,
            src@,
            calls@,
            own,
            strict_unknown,
            answers,
            owner,
            i as int,
        );
        let found = check_call(
            index,
            src,
            &calls[i],
            user_symbols,
            strict_unknown,
            symbols,
            owner_exports,
        );
        let ghost one = findings::some_finding(findings::opt_finding(found));
        add_finding(errors, found);
        assert((start + before) + one =~= start + (before + one));
        i += 1;
    }
}

/// Every access of a type by a name of one of its methods or properties is silent, in either
/// language and whatever the letter case. An access by any other name is reported, with the
/// place of the member, unless the members of the type are not in the platform help.
pub proof fn law_members_of_a_type_are_silent(
    index: PlatformIndex,
    src: Seq<char>,
    dot: DotFact,
    scopes: Option<Seq<scope::ScopeView>>,
    ty: Type,
)
    requires
        head_type(index, dot, scopes) == Some(ty),
        ty.enum_values@.len() == 0,
    ensures
        forall|i: int|
            0 <= i < ty.methods@.len() && (text::lowercase((#[trigger] ty.methods@[i]).name_ru@)
                == text::lowercase(dot.member@) || text::lowercase(ty.methods@[i].name_en@)
                == text::lowercase(dot.member@)) ==> dot_finding(index, src, dot, scopes) is None,
        forall|j: int|
            0 <= j < ty.properties@.len() && (text::lowercase((#[trigger] ty.properties@[j]).name_ru@)
                == text::lowercase(dot.member@) || text::lowercase(ty.properties@[j].name_en@)
                == text::lowercase(dot.member@)) ==> dot_finding(index, src, dot, scopes) is None,
        !dynamic_members(text::lowercase(ty.name_ru@)) && (forall|i: int|
            0 <= i < ty.methods@.len() ==> text::lowercase((#[trigger] ty.methods@[i]).name_ru@)
                != text::lowercase(dot.member@) && text::lowercase(ty.methods@[i].name_en@)
                != text::lowercase(dot.member@)) && (forall|j: int|
            0 <= j < ty.properties@.len() ==> text::lowercase((#[trigger] ty.properties@[j]).name_ru@)
                != text::lowercase(dot.member@) && text::lowercase(ty.properties@[j].name_en@)
                != text::lowercase(dot.member@)) ==> (dot_finding(index, src, dot, scopes) matches Some(f)
            && f.kind == ExprErrorKind::UnknownTypeMember && f.confidence == Confidence::Low && (
        f.line,
        f.col,
    ) == findings::position(src, dot.member_byte as nat)),
        dynamic_members(text::lowercase(ty.name_ru@)) ==> dot_finding(index, src, dot, scopes) is None,
{
    platform::law_members_are_methods_and_properties(ty, dot.member@);
}

/// Of an enumeration the values are the members: an access by a name of a value is silent, an
/// access by any other name, that of a method or a property too, is reported as a value that does
/// not exist.
pub proof fn law_values_of_an_enumeration_are_silent(
    index: PlatformIndex,
    src: Seq<char>,
    dot: DotFact,
    scopes: Option<Seq<scope::ScopeView>>,
    ty: Type,
)
    requires
        head_type(index, dot, scopes) == Some(ty),
        ty.enum_values@.len() > 0,
    ensures
        forall|i: int|
            0 <= i < ty.enum_values@.len() && (text::lowercase((#[trigger] ty.enum_values@[i]).name_ru@)
                == text::lowercase(dot.member@) || text::lowercase(ty.enum_values@[i].name_en@)
                == text::lowercase(dot.member@)) ==> dot_finding(index, src, dot, scopes) is None,
        (forall|i: int|
            0 <= i < ty.enum_values@.len() ==> text::lowercase((#[trigger] ty.enum_values@[i]).name_ru@)
                != text::lowercase(dot.member@) && text::lowercase(ty.enum_values@[i].name_en@)
                != text::lowercase(dot.member@)) ==> (dot_finding(index, src, dot, scopes) matches Some(f)
            && f.kind == ExprErrorKind::UnknownEnumValue && f.confidence == Confidence::High && (
        f.line,
        f.col,
    ) == findings::position(src, dot.member_byte as nat)),
{
    platform::lemma_value_at(ty.enum_values@, text::lowercase(dot.member@), 0);
}

/// The head of an access is looked up among the types first: a head that names one is that type,
/// whatever the scopes say of it. A head that names none is the type of the variable, where the
/// scope of its place knows one, and an access whose head is neither is silent.
pub proof fn law_head_is_a_type_before_it_is_a_variable(
    index: PlatformIndex,
    src: Seq<char>,
    dot: DotFact,
    scopes: Option<Seq<scope::ScopeView>>,
    other: Option<Seq<scope::ScopeView>>,
)
    ensures
        (exists|i: int|
            0 <= i < index.types@.len() && text::lowercase((#[trigger] index.types@[i]).name_ru@)
                == text::lowercase(dot.head@)) ==> dot_finding(index, src, dot, scopes) == dot_finding(
            index,
            src,
            dot,
            other,
        ),
        (forall|i: int|
            0 <= i < index.types@.len() ==> text::lowercase((#[trigger] index.types@[i]).name_ru@)
                != text::lowercase(dot.head@) && text::lowercase(index.types@[i].name_en@)
                != text::lowercase(dot.head@)) ==> {
            &&& dot_finding(index, src, dot, None) is None
            &&& scopes matches Some(s) ==> (match scope::var_type(s, dot.head_byte as nat, dot.head@) {
                Some(name) => head_type(index, dot, scopes) == platform::type_named(index.types@, name),
                None => dot_finding(index, src, dot, scopes) is None,
            })
        },
{
    let types = index.types@;
    if exists|i: int|
        0 <= i < types.len() && text::lowercase((#[trigger] types[i]).name_ru@) == text::lowercase(
            dot.head@,
        ) {
        let i = choose|i: int|
            0 <= i < types.len() && text::lowercase((#[trigger] types[i]).name_ru@) == text::lowercase(
                dot.head@,
            );
        platform::law_type_is_found_by_either_name(types, dot.head@, i);
    }
    platform::law_found_type_bears_the_name(types, dot.head@);
}

/// A new value is silent exactly where some type bears the name in either language; any other
/// name is reported at its place.
pub proof fn law_new_value_needs_a_type(index: PlatformIndex, src: Seq<char>, n: NewFact)
    ensures
        new_finding(index, src, n) is None <==> exists|i: int|
            0 <= i < index.types@.len() && (text::lowercase((#[trigger] index.types@[i]).name_ru@)
                == text::lowercase(n.name@) || (index.types@[i].name_en@.len() > 0 && text::lowercase(
                index.types@[i].name_en@,
            ) == text::lowercase(n.name@))),
        new_finding(index, src, n) matches Some(f) ==> f.kind == ExprErrorKind::UnknownNewType
            && f.confidence == Confidence::Low && (f.line, f.col) == findings::position(
            src,
            n.byte as nat,
        ),
{
    let types = index.types@;
    platform::law_found_type_bears_the_name(types, n.name@);
    if let Some(t) = platform::type_named(types, n.name@) {
        let k = choose|k: int| 0 <= k < types.len() && types[k] == t;
        assert(types[k].name_ru@ == t.name_ru@);
    }
    assert forall|i: int|
        0 <= i < types.len() && (text::lowercase((#[trigger] types[i]).name_ru@) == text::lowercase(
            n.name@,
        ) || (types[i].name_en@.len() > 0 && text::lowercase(types[i].name_en@) == text::lowercase(
            n.name@,
        ))) implies new_finding(index, src, n) is None by {
        platform::law_type_is_found_by_either_name(types, n.name@, i);
    }
}

/// A call of a global method is silent exactly where one of its forms takes that many arguments,
/// or no form is described; otherwise the number is reported at the call. The method is the first
/// that bears the name in either language. A procedure of the module goes before it.
#[verifier::rlimit(40)]
pub proof fn law_global_call_is_held_to_its_forms(
    index: PlatformIndex,
    src: Seq<char>,
    call: CallFact,
    own: Option<Seq<Seq<char>>>,
    strict: bool,
    answers: Option<symbols::Answers>,
    owner_exports: Option<Seq<Seq<char>>>,
    i: int,
)
    requires
        0 <= i < index.global_methods@.len(),
        text::lowercase(index.global_methods@[i].name_ru@) == text::lowercase(call.name@) || (
        index.global_methods@[i].name_en@.len() > 0 && text::lowercase(index.global_methods@[i].name_en@)
            == text::lowercase(call.name@)),
        forall|k: int|
            0 <= k < i ==> text::lowercase((#[trigger] index.global_methods@[k]).name_ru@)
                != text::lowercase(call.name@) && text::lowercase(index.global_methods@[k].name_en@)
                != text::lowercase(call.name@),
        own matches Some(names) ==> !names.contains(text::lowercase(call.name@)),
    ensures
        call_finding(index, src, call, own, strict, answers, owner_exports) is None <==> (
        index.global_methods@[i].signatures@.len() == 0 || exists|k: int|
            0 <= k < index.global_methods@[i].signatures@.len() && check::required_upto(
                (#[trigger] index.global_methods@[i].signatures@[k]).parameters@,
                index.global_methods@[i].signatures@[k].parameters@.len() as int,
            ) <= call.arg_count && call.arg_count <= index.global_methods@[i].signatures@[k].parameters@.len()),
        call_finding(index, src, call, own, strict, answers, owner_exports) matches Some(f) ==> f.kind
            == ExprErrorKind::WrongArgumentCount && f.confidence == Confidence::High && f.suggestion is None
            && (f.line, f.col) == findings::position(src, call.byte as nat),
{
    platform::law_method_is_found_by_either_name(index.global_methods@, call.name@);
    let m = index.global_methods@[i];
    assert(platform::method_named(index.global_methods@, call.name@) == Some(m));
    if check::accepts(m, call.arg_count as nat) && m.signatures@.len() > 0 {
        let k = choose|k: int|
            0 <= k < m.signatures@.len() && check::takes(#[trigger] m.signatures@[k], call.arg_count as nat);
        assert(m.signatures@[k].parameters@.len() >= call.arg_count);
    }
    if exists|k: int|
        0 <= k < m.signatures@.len() && check::required_upto(
            (#[trigger] m.signatures@[k]).parameters@,
            m.signatures@[k].parameters@.len() as int,
        ) <= call.arg_count && call.arg_count <= m.signatures@[k].parameters@.len() {
        let k = choose|k: int|
            0 <= k < m.signatures@.len() && check::required_upto(
                (#[trigger] m.signatures@[k]).parameters@,
                m.signatures@[k].parameters@.len() as int,
            ) <= call.arg_count && call.arg_count <= m.signatures@[k].parameters@.len();
        assert(check::takes(m.signatures@[k], call.arg_count as nat));
    }
}

/// The name of a method of any type keeps a call silent, in either language, where no global
/// method bears it.
pub proof fn law_methods_of_types_keep_calls_silent(
    index: PlatformIndex,
    src: Seq<char>,
    call: CallFact,
    own: Option<Seq<Seq<char>>>,
    strict: bool,
    answers: Option<symbols::Answers>,
    owner_exports: Option<Seq<Seq<char>>>,
    t: int,
    i: int,
)
    requires
        forall|k: int|
            0 <= k < index.global_methods@.len() ==> text::lowercase(
                (#[trigger] index.global_methods@[k]).name_ru@,
            ) != text::lowercase(call.name@) && text::lowercase(index.global_methods@[k].name_en@)
                != text::lowercase(call.name@),
        0 <= t < index.types@.len(),
        0 <= i < index.types@[t].methods@.len(),
        text::lowercase(index.types@[t].methods@[i].name_ru@) == text::lowercase(call.name@) || (
        index.types@[t].methods@[i].name_en@.len() > 0 && text::lowercase(
            index.types@[t].methods@[i].name_en@,
        ) == text::lowercase(call.name@)),
    ensures
        call_finding(index, src, call, own, strict, answers, owner_exports) is None,
{
    platform::law_method_is_found_by_either_name(index.global_methods@, call.name@);
    let key = text::lowercase(call.name@);
    assert(platform::some_method(index.types@[t].methods@, key)) by {
        assert(platform::either_name(
            index.types@[t].methods@[i].name_ru@,
            index.types@[t].methods@[i].name_en@,
            key,
        ));
    }
    assert(platform::some_type_method(index.types@, key));
}

/// A call of a name that neither the module nor the platform has. Where it is like a global
/// method, the nearest one is suggested, whatever else is known. Where it is like none, it is
/// reported in a whole module only, and not where the owner of the module or a global module
/// exports it: as not to be seen from here where the configuration declares the name, as
/// undeclared where it does not.
#[verifier::rlimit(40)]
pub proof fn law_unknown_call(
    index: PlatformIndex,
    src: Seq<char>,
    call: CallFact,
    own: Option<Seq<Seq<char>>>,
    strict: bool,
    answers: Option<symbols::Answers>,
    owner_exports: Option<Seq<Seq<char>>>,
)
    requires
        own matches Some(names) ==> !names.contains(text::lowercase(call.name@)),
        forall|k: int|
            0 <= k < index.global_methods@.len() ==> text::lowercase(
                (#[trigger] index.global_methods@[k]).name_ru@,
            ) != text::lowercase(call.name@) && text::lowercase(index.global_methods@[k].name_en@)
                != text::lowercase(call.name@),
        forall|t: int, i: int|
            0 <= t < index.types@.len() && 0 <= i < index.types@[t].methods@.len() ==> text::lowercase(
                (#[trigger] index.types@[t].methods@[i]).name_ru@,
            ) != text::lowercase(call.name@) && text::lowercase(index.types@[t].methods@[i].name_en@)
                != text::lowercase(call.name@),
    ensures
        ({
            let key = text::lowercase(call.name@);
            let typo = fuzzy::typo_of(
                call.name@,
                global_names(index.global_methods@, index.global_methods@.len() as int),
            );
            let found = call_finding(index, src, call, own, strict, answers, owner_exports);
            let declared = answers matches Some(a) && (a.declared)(key);
            &&& typo matches Some((s, c)) ==> (found matches Some(f) && f.kind
                == ExprErrorKind::UnknownGlobalMethod && f.suggestion == Some(s) && f.confidence == c)
            &&& typo is None && !strict ==> found is None
            &&& typo is None && (answers matches Some(a) && (a.global_export)(key)) ==> found is None
            &&& typo is None && (owner_exports matches Some(names) && names.contains(key)) ==> found is None
            &&& typo is None && strict && !(answers matches Some(a) && (a.global_export)(key)) && !(
            owner_exports matches Some(names) && names.contains(key)) ==> (found matches Some(f) && f.kind
                == ExprErrorKind::UndeclaredMethod && f.suggestion is None && (f.confidence
                == Confidence::Low <==> declared))
            &&& found matches Some(f) ==> (f.line, f.col) == findings::position(src, call.byte as nat)
        }),
{
    platform::law_method_is_found_by_either_name(index.global_methods@, call.name@);
    let key = text::lowercase(call.name@);
    if platform::some_type_method(index.types@, key) {
        let t = choose|t: int|
            0 <= t < index.types@.len() && platform::some_method((#[trigger] index.types@[t]).methods@, key);
        let methods = index.types@[t].methods@;
        let i = choose|i: int|
            0 <= i < methods.len() && platform::either_name(
                (#[trigger] methods[i]).name_ru@,
                methods[i].name_en@,
                key,
            );
        assert(text::lowercase(index.types@[t].methods@[i].name_ru@) != key);
    }
}

/// The names that a call is held against are the Russian names of the global methods and their
/// English names as far as they have one, and nothing else.
pub proof fn law_global_names(methods: Seq<platform::Method>, n: int)
    requires
        0 <= n <= methods.len(),
    ensures
        forall|i: int|
            0 <= i < n ==> global_names(methods, n).contains((#[trigger] methods[i]).name_ru@) && (
            methods[i].name_en@.len() > 0 ==> global_names(methods, n).contains(methods[i].name_en@)),
        forall|k: int|
            0 <= k < global_names(methods, n).len() ==> exists|i: int|
                0 <= i < n && (#[trigger] global_names(methods, n)[k] == (#[trigger] methods[i]).name_ru@ || (
                methods[i].name_en@.len() > 0 && global_names(methods, n)[k] == methods[i].name_en@)),
    decreases n,
{
    if n > 0 {
        law_global_names(methods, n - 1);
        let before = global_names(methods, n - 1);
        let m = methods[n - 1];
        let with_ru = before.push(m.name_ru@);
        let all = global_names(methods, n);
        assert(all[before.len() as int] == m.name_ru@);
        if m.name_en@.len() > 0 {
            assert(all[before.len() as int + 1] == m.name_en@);
        }
        assert forall|i: int| 0 <= i < n implies all.contains((#[trigger] methods[i]).name_ru@) && (
        methods[i].name_en@.len() > 0 ==> all.contains(methods[i].name_en@)) by {
            if i < n - 1 {
                let k = choose|k: int| 0 <= k < before.len() && before[k] == methods[i].name_ru@;
                assert(all[k] == before[k]);
                if methods[i].name_en@.len() > 0 {
                    let e = choose|e: int| 0 <= e < before.len() && before[e] == methods[i].name_en@;
                    assert(all[e] == before[e]);
                }
            }
        }
        assert forall|k: int| 0 <= k < all.len() implies exists|i: int|
            0 <= i < n && (#[trigger] all[k] == (#[trigger] methods[i]).name_ru@ || (
            methods[i].name_en@.len() > 0 && all[k] == methods[i].name_en@)) by {
            if k < before.len() {
                assert(all[k] == before[k]);
            } else {
                assert(all[k] == m.name_ru@ || all[k] == m.name_en@);
            }
        }
    }
}

/// What is found among the first accesses comes first, each access adds one finding at most,
/// and a finding stands in the list exactly where some access makes it.
pub proof fn law_accesses_are_checked_one_by_one(
    index: PlatformIndex,
    src: Seq<char>,
    dots: Seq<DotFact>,
    scopes: Option<Seq<scope::ScopeView>>,
    n: int,
)
    requires
        0 <= n <= dots.len(),
    ensures
        dot_findings(index, src, dots, scopes, n).len() <= n,
        forall|k: int|
            0 <= k <= n ==> (#[trigger] dot_findings(index, src, dots, scopes, k)).is_prefix_of(
                dot_findings(index, src, dots, scopes, n),
            ),
        forall|f: findings::FindingView| #[trigger]
            dot_findings(index, src, dots, scopes, n).contains(f) <==> exists|i: int|
            0 <= i < n && dot_finding(index, src, #[trigger] dots[i], scopes) == Some(f),
    decreases n,
{
    if n > 0 {
        law_accesses_are_checked_one_by_one(index, src, dots, scopes, n - 1);
        let before = dot_findings(index, src, dots, scopes, n - 1);
        let all = dot_findings(index, src, dots, scopes, n);
        findings::lemma_one_more(before, dot_finding(index, src, dots[n - 1], scopes));
        assert forall|f: findings::FindingView| #[trigger] all.contains(f) <==> exists|i: int|
            0 <= i < n && dot_finding(index, src, #[trigger] dots[i], scopes) == Some(f) by {
            if before.contains(f) {
                let i = choose|i: int| 0 <= i < n - 1 && dot_finding(index, src, #[trigger] dots[i], scopes) == Some(f);
                assert(dot_finding(index, src, dots[i], scopes) == Some(f));
            }
        }
        assert forall|k: int| 0 <= k <= n implies (#[trigger] dot_findings(index, src, dots, scopes, k)).is_prefix_of(all) by {
            if k < n {
                findings::lemma_prefix(dot_findings(index, src, dots, scopes, k), before, all);
            } else {
                assert(all =~= all.subrange(0, all.len() as int));
            }
        }
    }
}

/// New values are checked one by one, in the order of the module.
pub proof fn law_new_values_are_checked_one_by_one(
    index: PlatformIndex,
    src: Seq<char>,
    news: Seq<NewFact>,
    n: int,
)
    requires
        0 <= n <= news.len(),
    ensures
        new_findings(index, src, news, n).len() <= n,
        forall|k: int|
            0 <= k <= n ==> (#[trigger] new_findings(index, src, news, k)).is_prefix_of(
                new_findings(index, src, news, n),
            ),
        forall|f: findings::FindingView| #[trigger]
            new_findings(index, src, news, n).contains(f) <==> exists|i: int|
            0 <= i < n && new_finding(index, src, #[trigger] news[i]) == Some(f),
    decreases n,
{
    if n > 0 {
        law_new_values_are_checked_one_by_one(index, src, news, n - 1);
        let before = new_findings(index, src, news, n - 1);
        let all = new_findings(index, src, news, n);
        findings::lemma_one_more(before, new_finding(index, src, news[n - 1]));
        assert forall|f: findings::FindingView| #[trigger] all.contains(f) <==> exists|i: int|
            0 <= i < n && new_finding(index, src, #[trigger] news[i]) == Some(f) by {
            if before.contains(f) {
                let i = choose|i: int| 0 <= i < n - 1 && new_finding(index, src, #[trigger] news[i]) == Some(f);
                assert(new_finding(index, src, news[i]) == Some(f));
            }
        }
        assert forall|k: int| 0 <= k <= n implies (#[trigger] new_findings(index, src, news, k)).is_prefix_of(all) by {
            if k < n {
                findings::lemma_prefix(new_findings(index, src, news, k), before, all);
            } else {
                assert(all =~= all.subrange(0, all.len() as int));
            }
        }
    }
}

/// Calls are checked one by one, in the order of the module.
pub proof fn law_calls_are_checked_one_by_one(
    index: PlatformIndex,
    src: Seq<char>,
    calls: Seq<CallFact>,
    own: Option<Seq<Seq<char>>>,
    strict: bool,
    answers: Option<symbols::Answers>,
    owner_exports: Option<Seq<Seq<char>>>,
    n: int,
)
    requires
        0 <= n <= calls.len(),
    ensures
        call_findings(index, src, calls, own, strict, answers, owner_exports, n).len() <= n,
        forall|k: int|
            0 <= k <= n ==> (#[trigger] call_findings(index, src, calls, own, strict, answers, owner_exports, k)).is_prefix_of(
                call_findings(index, src, calls, own, strict, answers, owner_exports, n),
            ),
        forall|f: findings::FindingView| #[trigger]
            call_findings(index, src, calls, own, strict, answers, owner_exports, n).contains(f) <==> exists|i: int|
            0 <= i < n && call_finding(index, src, #[trigger] calls[i], own, strict, answers, owner_exports) == Some(f),
    decreases n,
{
    if n > 0 {
        law_calls_are_checked_one_by_one(index, src, calls, own, strict, answers, owner_exports, n - 1);
        let before = call_findings(index, src, calls, own, strict, answers, owner_exports, n - 1);
        let all = call_findings(index, src, calls, own, strict, answers, owner_exports, n);
        findings::lemma_one_more(before, call_finding(index, src, calls[n - 1], own, strict, answers, owner_exports));
        assert forall|f: findings::FindingView| #[trigger] all.contains(f) <==> exists|i: int|
            0 <= i < n && call_finding(index, src, #[trigger] calls[i], own, strict, answers, owner_exports) == Some(f) by {
            if before.contains(f) {
                let i = choose|i: int| 0 <= i < n - 1 && call_finding(index, src, #[trigger] calls[i], own, strict, answers, owner_exports) == Some(f);
                assert(call_finding(index, src, calls[i], own, strict, answers, owner_exports) == Some(f));
            }
        }
        assert forall|k: int| 0 <= k <= n implies (#[trigger] call_findings(index, src, calls, own, strict, answers, owner_exports, k)).is_prefix_of(all) by {
            if k < n {
                findings::lemma_prefix(call_findings(index, src, calls, own, strict, answers, owner_exports, k), before, all);
            } else {
                assert(all =~= all.subrange(0, all.len() as int));
            }
        }
    }
}

/// What is said of an access, of a new value and of a call names it as it is written, the type, and
/// what is suggested.
pub proof fn law_messages_name_what_they_speak_of(ty: Type, member: Seq<char>, name: Seq<char>, suggestion: Seq<char>)
    ensures
        text::holds(enum_message(ty, member, Some(suggestion)), member),
        text::holds(enum_message(ty, member, Some(suggestion)), ty.name_ru@),
        text::holds(enum_message(ty, member, Some(suggestion)), suggestion),
        text::holds(member_message(ty, member, Some(suggestion)), member),
        text::holds(member_message(ty, member, Some(suggestion)), ty.name_ru@),
        text::holds(member_message(ty, member, Some(suggestion)), suggestion),
        text::holds(new_message(name, Some(suggestion)), name),
        text::holds(new_message(name, Some(suggestion)), suggestion),
        text::holds(typo_message(name, suggestion), name),
        text::holds(typo_message(name, suggestion), suggestion),
        text::holds(undeclared_message(name), name),
        text::holds(invisible_message(name), name),
{
    assert(enum_message(ty, member, Some(suggestion)) =~= ("Значение '"@) + member + ("' не существует у типа-перечисления '"@ + ty.name_ru@ + "'."@ + findings::hint(" Возможно, вы имели в виду '"@, Some(suggestion))));
    text::law_beginnings_and_ends("Значение '"@, member, "' не существует у типа-перечисления '"@ + ty.name_ru@ + "'."@ + findings::hint(" Возможно, вы имели в виду '"@, Some(suggestion)));
    assert(enum_message(ty, member, Some(suggestion)) =~= ("Значение '"@ + member + "' не существует у типа-перечисления '"@) + ty.name_ru@ + ("'."@ + findings::hint(" Возможно, вы имели в виду '"@, Some(suggestion))));
    text::law_beginnings_and_ends("Значение '"@ + member + "' не существует у типа-перечисления '"@, ty.name_ru@, "'."@ + findings::hint(" Возможно, вы имели в виду '"@, Some(suggestion)));
    assert(enum_message(ty, member, Some(suggestion)) =~= ("Значение '"@ + member + "' не существует у типа-перечисления '"@ + ty.name_ru@ + "'."@ + " Возможно, вы имели в виду '"@) + suggestion + ("'."@));
    text::law_beginnings_and_ends("Значение '"@ + member + "' не существует у типа-перечисления '"@ + ty.name_ru@ + "'."@ + " Возможно, вы имели в виду '"@, suggestion, "'."@);
    assert(member_message(ty, member, Some(suggestion)) =~= ("У типа '"@ + ty.name_ru@ + "' нет члена '"@) + member + ("'."@ + findings::hint(" Возможно: '"@, Some(suggestion))));
    text::law_beginnings_and_ends("У типа '"@ + ty.name_ru@ + "' нет члена '"@, member, "'."@ + findings::hint(" Возможно: '"@, Some(suggestion)));
    assert(member_message(ty, member, Some(suggestion)) =~= ("У типа '"@) + ty.name_ru@ + ("' нет члена '"@ + member + "'."@ + findings::hint(" Возможно: '"@, Some(suggestion))));
    text::law_beginnings_and_ends("У типа '"@, ty.name_ru@, "' нет члена '"@ + member + "'."@ + findings::hint(" Возможно: '"@, Some(suggestion)));
    assert(member_message(ty, member, Some(suggestion)) =~= ("У типа '"@ + ty.name_ru@ + "' нет члена '"@ + member + "'."@ + " Возможно: '"@) + suggestion + ("'."@));
    text::law_beginnings_and_ends("У типа '"@ + ty.name_ru@ + "' нет члена '"@ + member + "'."@ + " Возможно: '"@, suggestion, "'."@);
    assert(new_message(name, Some(suggestion)) =~= ("Тип '"@) + name + ("' не найден в платформенном контексте (Новый '"@ + name + "')."@ + findings::hint(" Возможно: '"@, Some(suggestion))));
    text::law_beginnings_and_ends("Тип '"@, name, "' не найден в платформенном контексте (Новый '"@ + name + "')."@ + findings::hint(" Возможно: '"@, Some(suggestion)));
    assert(new_message(name, Some(suggestion)) =~= ("Тип '"@ + name + "' не найден в платформенном контексте (Новый '"@ + name + "')."@ + " Возможно: '"@) + suggestion + ("'."@));
    text::law_beginnings_and_ends("Тип '"@ + name + "' не найден в платформенном контексте (Новый '"@ + name + "')."@ + " Возможно: '"@, suggestion, "'."@);
    assert(typo_message(name, suggestion) =~= ("Глобальный метод '"@) + name + ("' не найден в платформенном контексте. Возможно, вы имели в виду '"@ + suggestion + "'."@));
    text::law_beginnings_and_ends("Глобальный метод '"@, name, "' не найден в платформенном контексте. Возможно, вы имели в виду '"@ + suggestion + "'."@);
    assert(typo_message(name, suggestion) =~= ("Глобальный метод '"@ + name + "' не найден в платформенном контексте. Возможно, вы имели в виду '"@) + suggestion + ("'."@));
    text::law_beginnings_and_ends("Глобальный метод '"@ + name + "' не найден в платформенном контексте. Возможно, вы имели в виду '"@, suggestion, "'."@);
    assert(undeclared_message(name) =~= ("Метод '"@) + name + ("' не объявлен в этом модуле и не найден в платформенном контексте."@));
    text::law_beginnings_and_ends("Метод '"@, name, "' не объявлен в этом модуле и не найден в платформенном контексте."@);
    assert(invisible_message(name) =~= ("Метод '"@) + name + ("' не объявлен в этом модуле. В конфигурации он есть, но отсюда может быть не виден — проверьте правила видимости."@));
    text::law_beginnings_and_ends("Метод '"@, name, "' не объявлен в этом модуле. В конфигурации он есть, но отсюда может быть не виден — проверьте правила видимости."@);
}

} // verus!
