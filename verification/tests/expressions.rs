//! Fragments, profiles and the reliability of findings.
use bsl_context::facts::{
    AssignFact, AstFacts, CallFact, DotFact, ManagerCallFact, NewFact, ParsedModule, ProcScope, QueryText, TextSpan,
};
use bsl_context::fuzzy::fuzzy_confidence_for;
use bsl_context::platform::{EnumValue, Method, Parameter, PlatformIndex, Signature, Type};
use bsl_context::{
    validate_expression_at_level, validate_expression_with_profile, Confidence, ExprErrorKind, Profile,
};

/// A lexeme of a module: its text and the byte at which it stands.
#[derive(Clone, Debug)]
struct Lexeme {
    text: String,
    byte: usize,
    is_name: bool,
    is_literal: bool,
}

fn blank(bytes: &mut [u8], from: usize, to: usize) {
    for b in &mut bytes[from..to] {
        if *b != b'\n' {
            *b = b' ';
        }
    }
}

/// Splits a module into lexemes, and blanks its strings and comments.
fn lexemes(src: &str) -> (Vec<Lexeme>, String) {
    let mut cleaned = src.as_bytes().to_vec();
    let chars: Vec<(usize, char)> = src.char_indices().collect();
    let end_of = |i: usize| if i < chars.len() { chars[i].0 } else { src.len() };
    let mut out = Vec::new();
    let mut i = 0;
    while i < chars.len() {
        let (byte, c) = chars[i];
        if c == '/' && i + 1 < chars.len() && chars[i + 1].1 == '/' {
            let mut j = i;
            while j < chars.len() && chars[j].1 != '\n' {
                j += 1;
            }
            blank(&mut cleaned, byte, end_of(j));
            i = j;
        } else if c == '"' {
            let mut j = i + 1;
            while j < chars.len() && chars[j].1 != '"' {
                j += 1;
            }
            let end = end_of(j + 1);
            blank(&mut cleaned, byte, end);
            out.push(Lexeme {
                text: src[end_of(i + 1)..end_of(j)].to_string(),
                byte: end_of(i + 1),
                is_name: false,
                is_literal: true,
            });
            i = j + 1;
        } else if c.is_alphanumeric() || c == '_' {
            let mut j = i;
            while j < chars.len() && (chars[j].1.is_alphanumeric() || chars[j].1 == '_') {
                j += 1;
            }
            out.push(Lexeme {
                text: src[byte..end_of(j)].to_string(),
                byte,
                is_name: !c.is_numeric(),
                is_literal: false,
            });
            i = j;
        } else {
            if !c.is_whitespace() && c != '\u{FEFF}' {
                out.push(Lexeme { text: c.to_string(), byte, is_name: false, is_literal: false });
            }
            i += 1;
        }
    }
    (out, String::from_utf8(cleaned).unwrap())
}

/// The query text that a literal holds, where it holds one.
fn query_of(literal: &Lexeme) -> Option<QueryText> {
    let lower = literal.text.trim_start().to_lowercase();
    if !lower.starts_with("выбрать") && !lower.starts_with("select") {
        return None;
    }
    let mut text = String::new();
    let mut spans = Vec::new();
    let mut at = literal.byte;
    for (n, line) in literal.text.split('\n').enumerate() {
        let mut piece = line;
        let mut start = at;
        if n > 0 {
            text.push('\n');
            let bar = line.find('|').map(|b| b + 1).unwrap_or(0);
            piece = &line[bar..];
            start = at + bar;
        }
        spans.push(TextSpan { text_start: text.len(), module_start: start });
        text.push_str(piece);
        at += line.len() + 1;
    }
    Some(QueryText { text, spans })
}

/// The number of arguments in the brackets that open at `open`.
fn arguments(l: &[Lexeme], open: usize) -> usize {
    if open + 1 < l.len() && l[open + 1].text == ")" && !l[open + 1].is_literal {
        return 0;
    }
    let mut depth = 0;
    let mut count = 1;
    for x in &l[open..] {
        if x.is_literal {
            continue;
        }
        match x.text.as_str() {
            "(" => depth += 1,
            ")" => {
                depth -= 1;
                if depth == 0 {
                    break;
                }
            }
            "," if depth == 1 => count += 1,
            _ => {}
        }
    }
    count
}

/// Reads a module: a reader that is enough for the modules of these tests.
fn parse_module(src: &str) -> ParsedModule {
    let (l, cleaned) = lexemes(src);
    let mut facts = AstFacts::new();
    let mut queries = Vec::new();
    let is = |i: usize, s: &str| i < l.len() && !l[i].is_literal && l[i].text == s;
    let low = |i: usize| if i < l.len() && l[i].is_name { l[i].text.to_lowercase() } else { String::new() };
    let keywords = [
        "если", "иначеесли", "пока", "и", "или", "не", "возврат", "новый", "процедура", "функция",
        "procedure", "function",
    ];
    let mut directive = String::new();
    let mut i = 0;
    while i < l.len() {
        let before_dot = i > 0 && is(i - 1, ".");
        let word = low(i);
        if l[i].is_literal {
            let added = (i > 0 && is(i - 1, "+")) || is(i + 1, "+");
            if !added {
                queries.extend(query_of(&l[i]));
            }
        } else if is(i, "&") {
            facts.has_directives = true;
            directive = low(i + 1);
            i += 1;
        } else if before_dot || !l[i].is_name {
        } else if ["процедура", "функция", "procedure", "function"].contains(&word.as_str()) {
            facts.declarations.push(low(i + 1));
            let mut params = Vec::new();
            let mut j = i + 2;
            while j < l.len() && !is(j, ")") {
                if l[j].is_name && low(j) != "знач" && (is(j + 1, ",") || is(j + 1, ")") || is(j + 1, "=")) {
                    params.push(low(j));
                }
                j += 1;
            }
            let mut k = j;
            while k < l.len()
                && !["конецпроцедуры", "конецфункции", "endprocedure", "endfunction"].contains(&low(k).as_str())
            {
                k += 1;
            }
            let byte_end = if k < l.len() { l[k].byte + l[k].text.len() } else { src.len() };
            facts.procs.push(ProcScope {
                byte_start: l[i].byte,
                byte_end,
                params,
                no_context: directive.ends_with("безконтекста") || directive.ends_with("nocontext"),
            });
            directive.clear();
            i = j;
        } else if word == "новый" {
            facts.news.push(NewFact { name: l[i + 1].text.clone(), byte: l[i + 1].byte });
            i += 1;
        } else if word == "перем" {
            facts.assigns.push(AssignFact { name: l[i + 1].text.clone(), byte: l[i + 1].byte, declaration: true });
            i += 1;
        } else if word == "для" {
            let at = if low(i + 1) == "каждого" { i + 2 } else { i + 1 };
            facts.loop_vars.push(low(at));
            i = at;
        } else if is(i + 1, ".") && i + 2 < l.len() && l[i + 2].is_name {
            facts.dots.push(DotFact {
                head: l[i].text.clone(),
                head_byte: l[i].byte,
                member: l[i + 2].text.clone(),
                member_byte: l[i + 2].byte,
                member_is_call: is(i + 3, "("),
            });
            if is(i + 3, ".") && i + 4 < l.len() && is(i + 5, "(") {
                facts.manager_calls.push(ManagerCallFact {
                    collection: l[i].text.clone(),
                    object: l[i + 2].text.clone(),
                    method: l[i + 4].text.clone(),
                    method_byte: l[i + 4].byte,
                });
            }
        } else if is(i + 1, "(") && !keywords.contains(&word.as_str()) {
            facts.calls.push(CallFact {
                name: l[i].text.clone(),
                byte: l[i].byte,
                arg_count: arguments(&l, i + 1),
            });
        } else if is(i + 1, "=") && (i == 0 || is(i - 1, ";") || is(i - 1, ")") || low(i - 1) == "цикл" || low(i - 1) == "экспорт") {
            facts.assigns.push(AssignFact { name: l[i].text.clone(), byte: l[i].byte, declaration: false });
        }
        i += 1;
    }
    let scanned_declarations = facts.declarations.clone();
    ParsedModule { source: src.to_string(), cleaned, facts, scanned_declarations, queries }
}

#[test]
fn nstr_with_string_arg_is_valid() {
    let mut index = PlatformIndex::new();
    index.global_methods.push(Method {
        name_ru: "НСтр".into(),
        name_en: "NStr".into(),
        description: String::new(),
        return_type: "Строка".into(),
        signatures: vec![Signature {
            name: "Основная".into(),
            description: String::new(),
            parameters: vec![
                Parameter { name: "ИсходнаяСтрока".into(), value_type: String::new(), required: true, description: String::new() },
                Parameter { name: "КодЯзыка".into(), value_type: String::new(), required: false, description: String::new() },
            ],
        }],
    });
    let src = "Текст = НСтр(\"ru = 'Неверный тип запроса.'\");";
    let res = validate_expression_at_level(&index, &parse_module(src), 1);
    assert!(res.valid, "НСтр с одним строковым аргументом ложно помечен: {:?}", res.errors);
}

#[test]
fn fuzzy_zero_distance_is_silent() {
    assert_eq!(fuzzy_confidence_for("Сообщить", "Сообщить", 0), None);
}

#[test]
fn fuzzy_deliberate_suffix_is_not_a_typo() {
    assert_eq!(fuzzy_confidence_for("СтрокаТЧ", "Строка", 2), None);
    assert_eq!(fuzzy_confidence_for("Сообщить2", "Сообщить", 1), None);
    assert_eq!(fuzzy_confidence_for("СокрЛ2", "СокрЛ", 1), None);
    assert_eq!(fuzzy_confidence_for("Формат1", "Формат", 1), None);
}

#[test]
fn fuzzy_real_typo_still_high() {
    assert_eq!(
        fuzzy_confidence_for("СтрНайит", "СтрНайти", 2),
        Some(Confidence::High)
    );
}

#[test]
fn fuzzy_single_letter_doubling_still_caught() {
    assert_eq!(
        fuzzy_confidence_for("Строкаа", "Строка", 1),
        Some(Confidence::High)
    );
}

#[test]
fn fuzzy_deliberate_prefix_is_not_a_typo() {
    assert_eq!(fuzzy_confidence_for("тФормат", "Формат", 1), None);
    assert_eq!(fuzzy_confidence_for("тзСтрока", "Строка", 2), None);
    assert_eq!(fuzzy_confidence_for("ТЗСтрока", "Строка", 2), None);
    assert_eq!(fuzzy_confidence_for("1Формат", "Формат", 1), None);
}

#[test]
fn fuzzy_first_letter_doubling_still_caught() {
    assert_eq!(
        fuzzy_confidence_for("ССообщить", "Сообщить", 1),
        Some(Confidence::High)
    );
    assert_eq!(
        fuzzy_confidence_for("ФФормат", "Формат", 1),
        Some(Confidence::High)
    );
}

#[test]
fn confidence_mapping() {
    assert_eq!(ExprErrorKind::UnknownEnumValue.confidence(), Confidence::High);
    assert_eq!(
        ExprErrorKind::WrongArgumentCount.confidence(),
        Confidence::High
    );
    assert_eq!(ExprErrorKind::UnknownTypeMember.confidence(), Confidence::Low);
    assert_eq!(ExprErrorKind::UnknownNewType.confidence(), Confidence::Low);
    assert_eq!(
        ExprErrorKind::UnknownGlobalMethod.confidence(),
        Confidence::Low
    );
}

#[test]
fn profile_parse_or_default() {
    assert_eq!(Profile::parse_or_default(Some("strict")), Profile::Strict);
    assert_eq!(Profile::parse_or_default(Some("  STRICT ")), Profile::Strict);
    assert_eq!(Profile::parse_or_default(Some("full")), Profile::Full);
    assert_eq!(Profile::parse_or_default(Some("чтотоиное")), Profile::Full);
    assert_eq!(Profile::parse_or_default(None), Profile::Full);
    assert_eq!(Profile::default(), Profile::Full);
}

fn test_index() -> PlatformIndex {

    let mut index = PlatformIndex::new();

    index.insert_type(Type {
        name_ru: "ЦветТест".into(),
        name_en: "ColorTest".into(),
        description: String::new(),
        methods: Vec::new(),
        properties: Vec::new(),
        constructors: Vec::new(),
        enum_values: vec![EnumValue {
            name_ru: "Красный".into(),
            name_en: "Red".into(),
            description: String::new(),
        }],
    });

    index.insert_type(Type {
        name_ru: "СтруктураТест".into(),
        name_en: "StructTest".into(),
        description: String::new(),
        methods: vec![Method {
            name_ru: "Вставить".into(),
            name_en: "Insert".into(),
            description: String::new(),
            return_type: String::new(),
            signatures: Vec::new(),
        }],
        properties: Vec::new(),
        constructors: Vec::new(),
        enum_values: Vec::new(),
    });

    index
}

#[test]
fn profile_full_returns_all_findings() {
    let index = test_index();
    let src = "А = ЦветТест.Синий;\nБ = СтруктураТест.Опечатка;";
    let result = validate_expression_with_profile(&index, &parse_module(src), 1, Profile::Full);

    assert!(!result.valid);
    assert_eq!(result.errors.len(), 2, "full должен вернуть обе находки");
    assert!(result
        .errors
        .iter()
        .any(|e| e.kind == ExprErrorKind::UnknownEnumValue
            && e.confidence == Confidence::High));
    assert!(result
        .errors
        .iter()
        .any(|e| e.kind == ExprErrorKind::UnknownTypeMember
            && e.confidence == Confidence::Low));
}

#[test]
fn profile_strict_keeps_only_high_confidence() {
    let index = test_index();
    let src = "А = ЦветТест.Синий;\nБ = СтруктураТест.Опечатка;";
    let result = validate_expression_with_profile(&index, &parse_module(src), 2, Profile::Strict);

    assert!(!result.valid);
    assert_eq!(
        result.errors.len(),
        1,
        "strict должен оставить только high-confidence находку"
    );
    assert_eq!(result.errors[0].kind, ExprErrorKind::UnknownEnumValue);
    assert_eq!(result.errors[0].confidence, Confidence::High);
}
