//! Names that the context takes.
use bsl_context::context_names::check_shadowed_context_names;
use bsl_context::facts::{
    AssignFact, AstFacts, CallFact, DotFact, ManagerCallFact, NewFact, ParsedModule, ProcScope, QueryText, TextSpan,
};
use bsl_context::platform::{Method, PlatformIndex, Property, Type};
use bsl_context::{is_form_module, Confidence, ExprError, ExprErrorKind, FORM_TYPE};

/// A lexeme of a module: its text and the byte at which it stands.
#[derive(Clone, Debug)]
struct Lexeme {
    text: String,
    byte: usize,
    is_name: bool,
    is_literal: bool,
}

fn blank(bytes: &mut [u8], from: usize, to: usize) {
    for b in &mut bytes[from..to] {
        if *b != b'\n' {
            *b = b' ';
        }
    }
}

/// Splits a module into lexemes, and blanks its strings and comments.
fn lexemes(src: &str) -> (Vec<Lexeme>, String) {
    let mut cleaned = src.as_bytes().to_vec();
    let chars: Vec<(usize, char)> = src.char_indices().collect();
    let end_of = |i: usize| if i < chars.len() { chars[i].0 } else { src.len() };
    let mut out = Vec::new();
    let mut i = 0;
    while i < chars.len() {
        let (byte, c) = chars[i];
        if c == '/' && i + 1 < chars.len() && chars[i + 1].1 == '/' {
            let mut j = i;
            while j < chars.len() && chars[j].1 != '\n' {
                j += 1;
            }
            blank(&mut cleaned, byte, end_of(j));
            i = j;
        } else if c == '"' {
            let mut j = i + 1;
            while j < chars.len() && chars[j].1 != '"' {
                j += 1;
            }
            let end = end_of(j + 1);
            blank(&mut cleaned, byte, end);
            out.push(Lexeme {
                text: src[end_of(i + 1)..end_of(j)].to_string(),
                byte: end_of(i + 1),
                is_name: false,
                is_literal: true,
            });
            i = j + 1;
        } else if c.is_alphanumeric() || c == '_' {
            let mut j = i;
            while j < chars.len() && (chars[j].1.is_alphanumeric() || chars[j].1 == '_') {
                j += 1;
            }
            out.push(Lexeme {
                text: src[byte..end_of(j)].to_string(),
                byte,
                is_name: !c.is_numeric(),
                is_literal: false,
            });
            i = j;
        } else {
            if !c.is_whitespace() && c != '\u{FEFF}' {
                out.push(Lexeme { text: c.to_string(), byte, is_name: false, is_literal: false });
            }
            i += 1;
        }
    }
    (out, String::from_utf8(cleaned).unwrap())
}

/// The query text that a literal holds, where it holds one.
fn query_of(literal: &Lexeme) -> Option<QueryText> {
    let lower = literal.text.trim_start().to_lowercase();
    if !lower.starts_with("выбрать") && !lower.starts_with("select") {
        return None;
    }
    let mut text = String::new();
    let mut spans = Vec::new();
    let mut at = literal.byte;
    for (n, line) in literal.text.split('\n').enumerate() {
        let mut piece = line;
        let mut start = at;
        if n > 0 {
            text.push('\n');
            let bar = line.find('|').map(|b| b + 1).unwrap_or(0);
            piece = &line[bar..];
            start = at + bar;
        }
        spans.push(TextSpan { text_start: text.len(), module_start: start });
        text.push_str(piece);
        at += line.len() + 1;
    }
    Some(QueryText { text, spans })
}

/// The number of arguments in the brackets that open at `open`.
fn arguments(l: &[Lexeme], open: usize) -> usize {
    if open + 1 < l.len() && l[open + 1].text == ")" && !l[open + 1].is_literal {
        return 0;
    }
    let mut depth = 0;
    let mut count = 1;
    for x in &l[open..] {
        if x.is_literal {
            continue;
        }
        match x.text.as_str() {
            "(" => depth += 1,
            ")" => {
                depth -= 1;
                if depth == 0 {
                    break;
                }
            }
            "," if depth == 1 => count += 1,
            _ => {}
        }
    }
    count
}

/// Reads a module: a reader that is enough for the modules of these tests.
fn parse_module(src: &str) -> ParsedModule {
    let (l, cleaned) = lexemes(src);
    let mut facts = AstFacts::new();
    let mut queries = Vec::new();
    let is = |i: usize, s: &str| i < l.len() && !l[i].is_literal && l[i].text == s;
    let low = |i: usize| if i < l.len() && l[i].is_name { l[i].text.to_lowercase() } else { String::new() };
    let keywords = [
        "если", "иначеесли", "пока", "и", "или", "не", "возврат", "новый", "процедура", "функция",
        "procedure", "function",
    ];
    let mut directive = String::new();
    let mut i = 0;
    while i < l.len() {
        let before_dot = i > 0 && is(i - 1, ".");
        let word = low(i);
        if l[i].is_literal {
            let added = (i > 0 && is(i - 1, "+")) || is(i + 1, "+");
            if !added {
                queries.extend(query_of(&l[i]));
            }
        } else if is(i, "&") {
            facts.has_directives = true;
            directive = low(i + 1);
            i += 1;
        } else if before_dot || !l[i].is_name {
        } else if ["процедура", "функция", "procedure", "function"].contains(&word.as_str()) {
            facts.declarations.push(low(i + 1));
            let mut params = Vec::new();
            let mut j = i + 2;
            while j < l.len() && !is(j, ")") {
                if l[j].is_name && low(j) != "знач" && (is(j + 1, ",") || is(j + 1, ")") || is(j + 1, "=")) {
                    params.push(low(j));
                }
                j += 1;
            }
            let mut k = j;
            while k < l.len()
                && !["конецпроцедуры", "конецфункции", "endprocedure", "endfunction"].contains(&low(k).as_str())
            {
                k += 1;
            }
            let byte_end = if k < l.len() { l[k].byte + l[k].text.len() } else { src.len() };
            facts.procs.push(ProcScope {
                byte_start: l[i].byte,
                byte_end,
                params,
                no_context: directive.ends_with("безконтекста") || directive.ends_with("nocontext"),
            });
            directive.clear();
            i = j;
        } else if word == "новый" {
            facts.news.push(NewFact { name: l[i + 1].text.clone(), byte: l[i + 1].byte });
            i += 1;
        } else if word == "перем" {
            facts.assigns.push(AssignFact { name: l[i + 1].text.clone(), byte: l[i + 1].byte, declaration: true });
            i += 1;
        } else if word == "для" {
            let at = if low(i + 1) == "каждого" { i + 2 } else { i + 1 };
            facts.loop_vars.push(low(at));
            i = at;
        } else if is(i + 1, ".") && i + 2 < l.len() && l[i + 2].is_name {
            facts.dots.push(DotFact {
                head: l[i].text.clone(),
                head_byte: l[i].byte,
                member: l[i + 2].text.clone(),
                member_byte: l[i + 2].byte,
                member_is_call: is(i + 3, "("),
            });
            if is(i + 3, ".") && i + 4 < l.len() && is(i + 5, "(") {
                facts.manager_calls.push(ManagerCallFact {
                    collection: l[i].text.clone(),
                    object: l[i + 2].text.clone(),
                    method: l[i + 4].text.clone(),
                    method_byte: l[i + 4].byte,
                });
            }
        } else if is(i + 1, "(") && !keywords.contains(&word.as_str()) {
            facts.calls.push(CallFact {
                name: l[i].text.clone(),
                byte: l[i].byte,
                arg_count: arguments(&l, i + 1),
            });
        } else if is(i + 1, "=") && (i == 0 || is(i - 1, ";") || is(i - 1, ")") || low(i - 1) == "цикл" || low(i - 1) == "экспорт") {
            facts.assigns.push(AssignFact { name: l[i].text.clone(), byte: l[i].byte, declaration: false });
        }
        i += 1;
    }
    let scanned_declarations = facts.declarations.clone();
    ParsedModule { source: src.to_string(), cleaned, facts, scanned_declarations, queries }
}

fn test_index() -> PlatformIndex {
    let mut index = PlatformIndex::new();

    index.global_properties.push(Property {
        name_ru: "Документы".into(),
        name_en: "Documents".into(),
        description: String::new(),
        value_type: String::new(),
        readonly: true,
    });
    index.global_properties.push(Property {
        name_ru: "РабочаяДата".into(),
        name_en: "WorkingDate".into(),
        description: String::new(),
        value_type: String::new(),
        readonly: false,
    });

    index.insert_type(Type {
        name_ru: FORM_TYPE.into(),
        name_en: "ManagedClientApplicationForm".into(),
        description: String::new(),
        methods: vec![Method {
            name_ru: "Закрыть".into(),
            name_en: "Close".into(),
            description: String::new(),
            return_type: String::new(),
            signatures: Vec::new(),
        }],
        properties: vec![
            Property {
                name_ru: "Параметры".into(),
                name_en: "Parameters".into(),
                description: String::new(),
                value_type: String::new(),
                readonly: true,
            },
            Property {
                name_ru: "Заголовок".into(),
                name_en: "Title".into(),
                description: String::new(),
                value_type: String::new(),
                readonly: false,
            },
        ],
        constructors: Vec::new(),
        enum_values: Vec::new(),
    });

    index
}

fn shadowed(src: &str, form_module: bool) -> Vec<ExprError> {
    shadowed_with_attrs(src, form_module, None)
}

fn shadowed_with_attrs(
    src: &str,
    form_module: bool,
    form_attributes: Option<&Vec<String>>,
) -> Vec<ExprError> {
    let index = test_index();
    let facts = parse_module(src).facts;
    let mut errors = Vec::new();
    check_shadowed_context_names(
        &index,
        src,
        &facts,
        form_module,
        form_attributes,
        &mut errors,
    );
    errors
}

fn attrs(names: &[&str]) -> Vec<String> {
    names.iter().map(|n| n.to_lowercase()).collect()
}

#[test]
fn is_form_module_recognizes_both_layouts() {
    assert!(is_form_module(
        "base/Catalogs/Х/Forms/ФормаЭлемента/Ext/Form/Module.bsl"
    ));
    assert!(is_form_module("External/Обработка/Form/Форма/Form.obj.bsl"));
    assert!(!is_form_module("base/Documents/Заказ/Ext/ObjectModule.bsl"));
    assert!(!is_form_module("base/CommonModules/Х/Ext/Module.bsl"));
}

#[test]
fn context_names_form_readonly_property_assignment_is_high() {
    let errors = shadowed(
        "&НаСервере\nПроцедура Т()\nПараметры = Новый Структура;\nКонецПроцедуры\n",
        true,
    );
    assert_eq!(errors.len(), 1, "{:?}", errors);
    assert_eq!(errors[0].kind, ExprErrorKind::ShadowedContextName);
    assert_eq!(errors[0].confidence, Confidence::High);
}

#[test]
fn form_property_match_is_case_insensitive() {
    let errors = shadowed(
        "&НаСервере\nПроцедура Т()\nпараметры = Новый Структура;\nКонецПроцедуры\n",
        true,
    );
    assert_eq!(errors.len(), 1, "{:?}", errors);
}

#[test]
fn context_names_form_writable_property_assignment_is_silent() {
    let errors = shadowed(
        "&НаСервере\nПроцедура Т()\nЗаголовок = \"Тест\";\nКонецПроцедуры\n",
        true,
    );
    assert!(errors.is_empty(), "{:?}", errors);
}

#[test]
fn context_names_form_method_name_assignment_is_silent() {
    let errors = shadowed(
        "&НаКлиенте\nПроцедура Т()\nЗакрыть = Ложь;\nКонецПроцедуры\n",
        true,
    );
    assert!(errors.is_empty(), "{:?}", errors);
}

#[test]
fn context_names_procedure_parameter_frees_the_name() {
    let errors = shadowed(
        "&НаКлиенте\nПроцедура Т(Знач Результат, Параметры)\nПараметры = Новый Структура;\nКонецПроцедуры\n",
        true,
    );
    assert!(errors.is_empty(), "{:?}", errors);
}

#[test]
fn context_names_no_context_procedure_frees_form_member_name() {
    let errors = shadowed(
        "&НаКлиентеНаСервереБезКонтекста\nПроцедура Т(Форма)\nПараметры = Форма.Параметры;\nКонецПроцедуры\n",
        true,
    );
    assert!(errors.is_empty(), "{:?}", errors);
}

#[test]
fn no_context_procedure_does_not_free_global_property() {
    let errors = shadowed(
        "&НаСервереБезКонтекста\nПроцедура Т()\nДокументы = Новый Массив;\nКонецПроцедуры\n",
        true,
    );
    assert_eq!(errors.len(), 1, "{:?}", errors);
}

#[test]
fn context_names_ordinary_form_module_is_silent() {
    let errors = shadowed(
        "Процедура КнопкаНажатие(Элемент)\nПараметры = Новый Структура;\nКонецПроцедуры\n",
        true,
    );
    assert!(errors.is_empty(), "{:?}", errors);
}

#[test]
fn non_form_module_ignores_form_member() {
    let errors = shadowed(
        "&НаСервере\nПроцедура Т()\nПараметры = Новый Структура;\nКонецПроцедуры\n",
        false,
    );
    assert!(errors.is_empty(), "{:?}", errors);
}

#[test]
fn global_readonly_property_assignment_is_high_in_any_module() {
    let errors = shadowed("Процедура Т()\nДокументы = Новый Массив;\nКонецПроцедуры\n", false);
    assert_eq!(errors.len(), 1, "{:?}", errors);
    assert_eq!(errors[0].confidence, Confidence::High);
}

#[test]
fn known_form_attributes_enable_global_rule_inside_form() {
    let errors = shadowed_with_attrs(
        "&НаСервере\nПроцедура Т()\nДокументы = Новый Массив;\nКонецПроцедуры\n",
        true,
        Some(&attrs(&["Объект", "СписокЗаказов"])),
    );
    assert_eq!(errors.len(), 1, "{:?}", errors);
    assert_eq!(errors[0].confidence, Confidence::High);
}

#[test]
fn form_attribute_overrides_context_name() {
    let errors = shadowed_with_attrs(
        "&НаСервере\nПроцедура Т(Знач Значение)\nДокументы = Значение;\nКонецПроцедуры\n",
        true,
        Some(&attrs(&["Объект", "Документы"])),
    );
    assert!(errors.is_empty(), "{:?}", errors);
}

#[test]
fn form_attribute_overrides_form_property_name() {
    let errors = shadowed_with_attrs(
        "&НаСервере\nПроцедура Т()\nПараметры = Новый Структура;\nКонецПроцедуры\n",
        true,
        Some(&attrs(&["Параметры"])),
    );
    assert!(errors.is_empty(), "{:?}", errors);
}

#[test]
fn form_module_does_not_check_global_property() {
    let errors = shadowed(
        "&НаСервере\nПроцедура Т()\nДокументы = Новый Массив;\nКонецПроцедуры\n",
        true,
    );
    assert!(errors.is_empty(), "{:?}", errors);
}

#[test]
fn global_writable_property_assignment_is_silent() {
    let errors = shadowed(
        "Процедура Т()\nРабочаяДата = ТекущаяДата();\nКонецПроцедуры\n",
        false,
    );
    assert!(errors.is_empty(), "{:?}", errors);
}

#[test]
fn var_declaration_of_context_name_is_reported_once() {
    let errors = shadowed(
        "&НаСервере\nПроцедура Т()\nПерем Параметры;\nПараметры = Новый Структура;\nКонецПроцедуры\n",
        true,
    );
    assert_eq!(errors.len(), 1, "{:?}", errors);
    assert!(errors[0].message.contains("Перем"), "{:?}", errors[0].message);
}
