//! What holds of the library as a whole, on given values.
use bsl_context::declarations::{check_declarations, check_module_structure};
use bsl_context::directives::{closest_directive_with_distance, is_known_directive};
use bsl_context::distance::{closest_str, lev, nearest_name};
use bsl_context::facts::{
    AssignFact, AstFacts, CallFact, DotFact, ManagerCallFact, NewFact, ParsedModule, ProcScope, QueryText, TextSpan,
};
use bsl_context::findings::pos_at;
use bsl_context::fuzzy::{find_typo, fuzzy_confidence_for};
use bsl_context::paths::is_common_module;
use bsl_context::platform::{Method, PlatformIndex, Type};
use bsl_context::sdbl::lexer::{tokenize, Kind, Kw};
use bsl_context::sdbl::parser::parse;
use bsl_context::text::{byte_len_of, decimal_of, has_text, join, same_ascii, split, split_words, trim, Edge};
use bsl_context::{
    extract_scope_map, extract_type_annotations, is_form_module, validate_expression, validate_module,
    validate_module_at_level, ExprError, ExprErrorKind, Profile,
};

/// A lexeme of a module: its text and the byte at which it stands.
#[derive(Clone, Debug)]
struct Lexeme {
    text: String,
    byte: usize,
    is_name: bool,
    is_literal: bool,
}

fn blank(bytes: &mut [u8], from: usize, to: usize) {
    for b in &mut bytes[from..to] {
        if *b != b'\n' {
            *b = b' ';
        }
    }
}

/// Splits a module into lexemes, and blanks its strings and comments.
fn lexemes(src: &str) -> (Vec<Lexeme>, String) {
    let mut cleaned = src.as_bytes().to_vec();
    let chars: Vec<(usize, char)> = src.char_indices().collect();
    let end_of = |i: usize| if i < chars.len() { chars[i].0 } else { src.len() };
    let mut out = Vec::new();
    let mut i = 0;
    while i < chars.len() {
        let (byte, c) = chars[i];
        if c == '/' && i + 1 < chars.len() && chars[i + 1].1 == '/' {
            let mut j = i;
            while j < chars.len() && chars[j].1 != '\n' {
                j += 1;
            }
            blank(&mut cleaned, byte, end_of(j));
            i = j;
        } else if c == '"' {
            let mut j = i + 1;
            while j < chars.len() && chars[j].1 != '"' {
                j += 1;
            }
            let end = end_of(j + 1);
            blank(&mut cleaned, byte, end);
            out.push(Lexeme {
                text: src[end_of(i + 1)..end_of(j)].to_string(),
                byte: end_of(i + 1),
                is_name: false,
                is_literal: true,
            });
            i = j + 1;
        } else if c.is_alphanumeric() || c == '_' {
            let mut j = i;
            while j < chars.len() && (chars[j].1.is_alphanumeric() || chars[j].1 == '_') {
                j += 1;
            }
            out.push(Lexeme {
                text: src[byte..end_of(j)].to_string(),
                byte,
                is_name: !c.is_numeric(),
                is_literal: false,
            });
            i = j;
        } else {
            if !c.is_whitespace() && c != '\u{FEFF}' {
                out.push(Lexeme { text: c.to_string(), byte, is_name: false, is_literal: false });
            }
            i += 1;
        }
    }
    (out, String::from_utf8(cleaned).unwrap())
}

/// The query text that a literal holds, where it holds one.
fn query_of(literal: &Lexeme) -> Option<QueryText> {
    let lower = literal.text.trim_start().to_lowercase();
    if !lower.starts_with("выбрать") && !lower.starts_with("select") {
        return None;
    }
    let mut text = String::new();
    let mut spans = Vec::new();
    let mut at = literal.byte;
    for (n, line) in literal.text.split('\n').enumerate() {
        let mut piece = line;
        let mut start = at;
        if n > 0 {
            text.push('\n');
            let bar = line.find('|').map(|b| b + 1).unwrap_or(0);
            piece = &line[bar..];
            start = at + bar;
        }
        spans.push(TextSpan { text_start: text.len(), module_start: start });
        text.push_str(piece);
        at += line.len() + 1;
    }
    Some(QueryText { text, spans })
}

/// The number of arguments in the brackets that open at `open`.
fn arguments(l: &[Lexeme], open: usize) -> usize {
    if open + 1 < l.len() && l[open + 1].text == ")" && !l[open + 1].is_literal {
        return 0;
    }
    let mut depth = 0;
    let mut count = 1;
    for x in &l[open..] {
        if x.is_literal {
            continue;
        }
        match x.text.as_str() {
            "(" => depth += 1,
            ")" => {
                depth -= 1;
                if depth == 0 {
                    break;
                }
            }
            "," if depth == 1 => count += 1,
            _ => {}
        }
    }
    count
}

/// Reads a module: a reader that is enough for the modules of these tests.
fn parse_module(src: &str) -> ParsedModule {
    let (l, cleaned) = lexemes(src);
    let mut facts = AstFacts::new();
    let mut queries = Vec::new();
    let is = |i: usize, s: &str| i < l.len() && !l[i].is_literal && l[i].text == s;
    let low = |i: usize| if i < l.len() && l[i].is_name { l[i].text.to_lowercase() } else { String::new() };
    let keywords = [
        "если", "иначеесли", "пока", "и", "или", "не", "возврат", "новый", "процедура", "функция",
        "procedure", "function",
    ];
    let mut directive = String::new();
    let mut i = 0;
    while i < l.len() {
        let before_dot = i > 0 && is(i - 1, ".");
        let word = low(i);
        if l[i].is_literal {
            let added = (i > 0 && is(i - 1, "+")) || is(i + 1, "+");
            if !added {
                queries.extend(query_of(&l[i]));
            }
        } else if is(i, "&") {
            facts.has_directives = true;
            directive = low(i + 1);
            i += 1;
        } else if before_dot || !l[i].is_name {
        } else if ["процедура", "функция", "procedure", "function"].contains(&word.as_str()) {
            facts.declarations.push(low(i + 1));
            let mut params = Vec::new();
            let mut j = i + 2;
            while j < l.len() && !is(j, ")") {
                if l[j].is_name && low(j) != "знач" && (is(j + 1, ",") || is(j + 1, ")") || is(j + 1, "=")) {
                    params.push(low(j));
                }
                j += 1;
            }
            let mut k = j;
            while k < l.len()
                && !["конецпроцедуры", "конецфункции", "endprocedure", "endfunction"].contains(&low(k).as_str())
            {
                k += 1;
            }
            let byte_end = if k < l.len() { l[k].byte + l[k].text.len() } else { src.len() };
            facts.procs.push(ProcScope {
                byte_start: l[i].byte,
                byte_end,
                params,
                no_context: directive.ends_with("безконтекста") || directive.ends_with("nocontext"),
            });
            directive.clear();
            i = j;
        } else if word == "новый" {
            facts.news.push(NewFact { name: l[i + 1].text.clone(), byte: l[i + 1].byte });
            i += 1;
        } else if word == "перем" {
            facts.assigns.push(AssignFact { name: l[i + 1].text.clone(), byte: l[i + 1].byte, declaration: true });
            i += 1;
        } else if word == "для" {
            let at = if low(i + 1) == "каждого" { i + 2 } else { i + 1 };
            facts.loop_vars.push(low(at));
            i = at;
        } else if is(i + 1, ".") && i + 2 < l.len() && l[i + 2].is_name {
            facts.dots.push(DotFact {
                head: l[i].text.clone(),
                head_byte: l[i].byte,
                member: l[i + 2].text.clone(),
                member_byte: l[i + 2].byte,
                member_is_call: is(i + 3, "("),
            });
            if is(i + 3, ".") && i + 4 < l.len() && is(i + 5, "(") {
                facts.manager_calls.push(ManagerCallFact {
                    collection: l[i].text.clone(),
                    object: l[i + 2].text.clone(),
                    method: l[i + 4].text.clone(),
                    method_byte: l[i + 4].byte,
                });
            }
        } else if is(i + 1, "(") && !keywords.contains(&word.as_str()) {
            facts.calls.push(CallFact {
                name: l[i].text.clone(),
                byte: l[i].byte,
                arg_count: arguments(&l, i + 1),
            });
        } else if is(i + 1, "=") && (i == 0 || is(i - 1, ";") || is(i - 1, ")") || low(i - 1) == "цикл" || low(i - 1) == "экспорт") {
            facts.assigns.push(AssignFact { name: l[i].text.clone(), byte: l[i].byte, declaration: false });
        }
        i += 1;
    }
    let scanned_declarations = facts.declarations.clone();
    ParsedModule { source: src.to_string(), cleaned, facts, scanned_declarations, queries }
}

fn index_with(methods: &[&str]) -> PlatformIndex {
    let mut index = PlatformIndex::new();
    for name in methods {
        index.global_methods.push(Method {
            name_ru: name.to_string(),
            name_en: String::new(),
            description: String::new(),
            return_type: String::new(),
            signatures: Vec::new(),
        });
    }
    index
}

fn plain_type(name_ru: &str, name_en: &str) -> Type {
    Type {
        name_ru: name_ru.to_string(),
        name_en: name_en.to_string(),
        description: String::new(),
        methods: Vec::new(),
        properties: Vec::new(),
        constructors: Vec::new(),
        enum_values: Vec::new(),
    }
}

fn list(names: &[&str]) -> Vec<String> {
    names.iter().map(|n| n.to_string()).collect()
}

#[test]
fn distances_are_bounded_and_symmetric() {
    assert_eq!(lev("кот", "скат"), 2);
    assert_eq!(lev("скат", "кот"), 2);
    assert_eq!(lev("", "кот"), 3);
    assert_eq!(lev("кот", "кот"), 0);
    assert_eq!(lev("abc", "xyz"), 3);
}

#[test]
fn nearest_name_is_the_first_of_the_nearest() {
    let names = list(&["Строка", "СтрНайти", "строки"]);
    assert_eq!(nearest_name("строку", &names), Some(("Строка".to_string(), 1)));
    assert_eq!(nearest_name("СТРНАЙТИ", &names), Some(("СтрНайти".to_string(), 0)));
    assert_eq!(nearest_name("x", &Vec::new()), None);
    assert_eq!(closest_str("Переносит", &list(&["Авто", "Переносить"])), Some("Переносить".to_string()));
}

#[test]
fn a_typing_error_is_near_and_never_the_name_itself() {
    let names = list(&["Сообщить", "Формат"]);
    assert_eq!(find_typo("Сообщитъ", &names).map(|f| f.0), Some("Сообщить".to_string()));
    assert_eq!(find_typo("сообщить", &names), None);
    assert_eq!(find_typo("СовсемДругоеИмя", &names), None);
}

#[test]
fn findings_come_in_the_order_of_the_text() {
    let m = parse_module("Процедура А()\n\tВторой();\n\tПервый();\nКонецПроцедуры\nПроцедура А()\nКонецПроцедуры");
    let r = validate_module(&PlatformIndex::new(), &m);
    let at: Vec<(u32, u32)> = r.errors.iter().map(|e| (e.line, e.col)).collect();
    let mut sorted = at.clone();
    sorted.sort();
    assert_eq!(at, sorted);
    assert!(at.len() >= 3, "{:?}", r.errors);
    assert_eq!(at[0], (2, 2));
}

#[test]
fn own_procedures_are_never_reported() {
    let m = parse_module("Процедура Свой()\nКонецПроцедуры\nПроцедура Б()\n\tСВОЙ();\nКонецПроцедуры");
    assert!(validate_module(&PlatformIndex::new(), &m).valid);
}

#[test]
fn a_fragment_shows_nothing_undeclared() {
    let m = parse_module("НетТакого();");
    assert!(validate_expression(&PlatformIndex::new(), &m).valid);
    let module = validate_module(&PlatformIndex::new(), &m);
    assert!(module.errors.iter().any(|e| e.kind == ExprErrorKind::UndeclaredMethod));
    let extension = parse_module("&Вместо(\"А\")\nПроцедура Б()\n\tНетТакого();\nКонецПроцедуры");
    let r = validate_module(&PlatformIndex::new(), &extension);
    assert!(r.errors.iter().all(|e| e.kind != ExprErrorKind::UndeclaredMethod), "{:?}", r.errors);
}

#[test]
fn a_typing_error_in_a_call_is_reported_in_a_fragment_too() {
    let m = parse_module("Сообщитъ(1);");
    let r = validate_expression(&index_with(&["Сообщить"]), &m);
    assert_eq!(r.errors.len(), 1);
    assert_eq!(r.errors[0].kind, ExprErrorKind::UnknownGlobalMethod);
    assert_eq!(r.errors[0].suggestion.as_deref(), Some("Сообщить"));
}

#[test]
fn the_nearest_annotation_wins_and_holds_once() {
    let mut index = PlatformIndex::new();
    index.insert_type(plain_type("Первый", ""));
    index.insert_type(plain_type("Второй", ""));
    let src = "// @type Первый\n// @type Второй\nА = Получить();\nБ = Получить();\n";
    let cleaned = lexemes(src).1;
    let map = extract_scope_map(&index, &cleaned, &extract_type_annotations(src), 2);
    assert_eq!(map.type_of_var(src.len() - 1, "а").map(|s| s.as_str()), Some("Второй"));
    assert_eq!(map.type_of_var(src.len() - 1, "б"), None);
}

fn types_of(src: &str, vars: &[(usize, &str)]) -> Vec<Option<String>> {
    let mut index = PlatformIndex::new();
    index.insert_type(plain_type("Первый", ""));
    let cleaned = lexemes(src).1;
    let map = extract_scope_map(&index, &cleaned, &extract_type_annotations(src), 2);
    vars.iter().map(|(byte, name)| map.type_of_var(*byte, name).cloned()).collect()
}

#[test]
fn an_annotation_is_spent_for_the_next_procedure_too() {
    let src = "Процедура П()\n// @type Первый\nА = Ф();\nКонецПроцедуры\nПроцедура Р()\nБ = Ф();\nКонецПроцедуры\n";
    let second = src.find("Процедура Р").unwrap();
    assert_eq!(types_of(src, &[(0, "а"), (second, "б")]), vec![Some("Первый".to_string()), None]);
    // One that no assignment has passed holds for the first one of the next procedure.
    let src = "Процедура П()\n// @type Первый\nКонецПроцедуры\nПроцедура Р()\nБ = Ф();\nКонецПроцедуры\n";
    let second = src.find("Процедура Р").unwrap();
    assert_eq!(types_of(src, &[(second, "б")]), vec![Some("Первый".to_string())]);
}

#[test]
fn an_annotation_reaches_up_to_an_empty_line() {
    let first = Some("Первый".to_string());
    let src = "// @type Первый\n\nА = Ф();\n";
    assert_eq!(types_of(src, &[(src.len() - 1, "а")]), vec![None]);
    let src = "// @type Первый\r\n\r\nА = Ф();\r\n";
    assert_eq!(types_of(src, &[(src.len() - 1, "а")]), vec![None]);
    let src = "// @type Первый\nФ();\n\nА = Ф();\n";
    assert_eq!(types_of(src, &[(src.len() - 1, "а")]), vec![None]);
    let src = "// @type Первый\n// слова\nФ();\nА = Ф();\n\n";
    assert_eq!(types_of(src, &[(src.len() - 1, "а"), (src.len() - 1, "А")]), vec![first.clone(), first]);
}

#[test]
fn letter_case_does_not_change_how_a_query_is_read() {
    let src = "Выбрать Т.Ёлка Из Справочник.Товары Как Т Where Т.А = &Б Group By Т.В";
    let reading = |s: &str| tokenize(s).iter().map(|t| (t.kind, t.offset)).collect::<Vec<_>>();
    assert_eq!(reading(src), reading(&src.to_lowercase()));
    assert_eq!(reading(src), reading(&src.to_uppercase()));
    assert!(reading(src).iter().any(|(kind, _)| *kind == Kind::Keyword(Kw::GroupBy)));
}

#[test]
fn words_of_two_languages_are_not_joined() {
    let tokens = tokenize("GROUP ПО СГРУППИРОВАТЬ ПО GROUP BY BY");
    let texts: Vec<&str> = tokens.iter().map(|t| t.text.as_str()).collect();
    assert_eq!(texts, vec!["GROUP", "ПО", "СГРУППИРОВАТЬ ПО", "GROUP BY", "BY"]);
    assert_eq!(tokens[1].kind, Kind::Keyword(Kw::On));
}

#[test]
fn a_package_of_two_texts_holds_the_queries_of_both() {
    let a = "ВЫБРАТЬ ПЕРВЫЕ 1 А ИЗ (ВЫБРАТЬ Б ИЗ Вт1) КАК Т; УНИЧТОЖИТЬ ВТ // конец";
    let b = "ВЫБРАТЬ Г ИЗ Д";
    let joined = |b: &str| format!("{a}\n;\n{b}");
    assert_eq!(parse(a).unwrap().queries.len(), 2);
    assert_eq!(parse(&joined(b)).unwrap().queries.len(), 3);
    assert!(parse("ИЗ Д").is_err() && parse(&joined("ИЗ Д")).is_err());
    // A bracket that is left open reaches over the semicolon.
    let open = "ВЫБРАТЬ (А";
    assert_eq!(parse(open).unwrap().queries.len(), 1);
    assert_eq!(parse(&format!("{open}\n;\n{b}")).unwrap().queries.len(), 1);
}

#[test]
fn the_distance_is_the_least_number_of_changes() {
    // кот -> кит -> кита
    assert_eq!((lev("кот", "кит"), lev("кит", "кита"), lev("кот", "кита")), (1, 1, 2));
    let words = ["", "а", "аб", "ба", "абв", "вба"];
    for a in words {
        for b in words {
            for c in words {
                assert!(lev(a, c) <= lev(a, b) + lev(b, c), "{a} {b} {c}");
            }
        }
    }
}

#[test]
fn a_higher_level_only_adds_findings_on_members() {
    let mut index = PlatformIndex::new();
    index.insert_type(plain_type("Запрос", ""));
    let m = parse_module("Процедура П()\n\tЗ = Новый Запрос;\n\tЗ.Нет();\n\tНетТакого();\nКонецПроцедуры");
    let low = validate_module_at_level(&index, &m, 1);
    let high = validate_module_at_level(&index, &m, 2);
    let seen = |e: &ExprError| (e.line, e.col, e.kind, e.message.clone());
    let first: Vec<_> = low.errors.iter().map(seen).collect();
    assert!(first.iter().all(|f| f.2 == ExprErrorKind::UndeclaredMethod) && first.len() == 1, "{first:?}");
    let added: Vec<_> = high.errors.iter().map(seen).filter(|f| !first.contains(f)).collect();
    assert_eq!(high.errors.len(), first.len() + added.len());
    assert_eq!(added.len(), 1);
    assert_eq!(added[0].2, ExprErrorKind::UnknownTypeMember);
}

#[test]
fn forms_of_letters_are_those_of_the_standard_library() {
    // Latin and Russian letters, and characters that are no letters.
    let s = "AzАяЁё №1«—»\u{a0}_";
    assert_eq!(nearest_name(s, &vec![s.to_lowercase()]).unwrap().1, 0);
    assert_eq!(nearest_name(&s.to_uppercase(), &vec![s.to_string()]).unwrap().1, 0);
    assert_eq!(trim(Edge::Space, "\u{85}\u{1680}\u{2000}\u{200a}\u{2028}\u{202f}\u{205f}\u{3000}\u{b}А\u{200b} "), "А\u{200b}");
}

#[test]
fn a_directive_is_known_at_distance_zero() {
    for name in ["НаКлиенте", "наклиенте", "ATCLIENT", "НаКлиент", "&НаКлиенте", "иное"] {
        let (_, d) = closest_directive_with_distance(name).unwrap();
        assert_eq!(is_known_directive(name), d == 0, "{name}");
        assert_eq!(is_known_directive(name), is_known_directive(&name.to_lowercase()), "{name}");
    }
    assert!(is_known_directive("НаКлиенте") && !is_known_directive("&НаКлиенте"));
}

#[test]
fn a_declaration_is_a_duplicate_where_an_earlier_one_has_its_name() {
    let src = "Процедура А()\nКонецПроцедуры\nПроцедура Б()\nКонецПроцедуры\nФункция а()\nКонецФункции\n";
    let mut errors = Vec::new();
    check_declarations(src, src, &mut errors);
    let duplicates: Vec<u32> =
        errors.iter().filter(|e| e.kind == ExprErrorKind::DuplicateDeclaration).map(|e| e.line).collect();
    assert_eq!(duplicates, vec![5]);
}

#[test]
fn blocks_are_reported_where_they_do_not_alternate() {
    let count = |src: &str| {
        let mut errors = Vec::new();
        check_module_structure(src, src, &mut errors);
        errors.len()
    };
    assert_eq!(count("Процедура А()\nКонецПроцедуры\n"), 0);
    assert_eq!(count("КонецПроцедуры\n"), 1);
    assert!(count("Процедура А()\nПроцедура Б()\nКонецПроцедуры\n") >= 1);
}

#[test]
fn an_inserted_type_is_found_and_others_stay() {
    let mut index = PlatformIndex::new();
    index.insert_type(plain_type("Запрос", "Query"));
    index.insert_type(plain_type("Массив", "Array"));
    let mut newer = plain_type("ЗАПРОС", "Query2");
    newer.description = "новый".to_string();
    index.insert_type(newer);
    assert_eq!(index.types.len(), 2);
    assert_eq!(index.find_type("запрос").unwrap().description, "новый");
    assert!(index.find_type("QUERY2").is_some());
    assert!(index.find_type("array").is_some());
    assert!(index.find_type("Query").is_none());
}

#[test]
fn offsets_of_a_query_lead_back_to_the_module() {
    let q = QueryText {
        text: "ВЫБРАТЬ 1\nИЗ Т".to_string(),
        spans: vec![
            TextSpan { text_start: 0, module_start: 100 },
            TextSpan { text_start: 17, module_start: 150 },
        ],
    };
    assert_eq!(q.map_offset(0), 100);
    assert_eq!(q.map_offset(16), 116);
    assert_eq!(q.map_offset(17), 150);
    assert_eq!(q.map_offset(20), 153);
    assert_eq!(QueryText { text: String::new(), spans: Vec::new() }.map_offset(5), 0);
}

#[test]
fn a_query_that_is_not_understood_is_an_error_with_its_place() {
    let e = parse("ВЫБРАТЬ 1 ИЗ (").unwrap_err();
    assert!(e.offset <= "ВЫБРАТЬ 1 ИЗ (".len());
    assert!(parse("УНИЧТОЖИТЬ ВТ").is_ok());
}

#[test]
fn an_or_at_the_top_is_an_or() {
    let p = parse("ВЫБРАТЬ 1 ИЗ Справочник.А КАК А ГДЕ А.Б = 1 ИЛИ (А.В = 2)").unwrap();
    let filter = p.queries[0].filter.as_ref().unwrap();
    assert!(filter.has_or && filter.has_top_level_or && !filter.is_empty);
    let p = parse("ВЫБРАТЬ 1 ИЗ Справочник.А КАК А ГДЕ (А.Б = 1 ИЛИ А.В = 2)").unwrap();
    let filter = p.queries[0].filter.as_ref().unwrap();
    assert!(filter.has_or && !filter.has_top_level_or);
    assert_eq!(filter.fields[0].qualifier(), Some("А"));
    assert_eq!(filter.fields[0].name(), "Б");
}

#[test]
fn positions_count_characters_and_lines() {
    assert_eq!(pos_at("аб\nв", 0), (1, 1));
    assert_eq!(pos_at("аб\nв", 2), (1, 2));
    assert_eq!(pos_at("аб\nв", 5), (2, 1));
    assert_eq!(pos_at("аб\nв", 100), (2, 2));
}

#[test]
fn texts_are_split_and_compared() {
    assert_eq!(split("a/b//c", '/'), list(&["a", "b", "", "c"]));
    assert_eq!(split("", '/'), list(&[""]));
    assert_eq!(split_words("  Перем  А\tЭкспорт "), list(&["Перем", "А", "Экспорт"]));
    assert!(same_ascii("Form.OBJ.bsl", "fORM.obj.BSL") && !same_ascii("Ф", "ф"));
    assert!(has_text("x/Forms/y", "/Forms/") && !has_text("x/Form", "/Forms/"));
    assert_eq!(trim(Edge::Space, " \t я \n"), "я");
    assert_eq!(join(&list(&["а", "б"]), ", "), "а, б");
    assert_eq!(decimal_of(8007), "8007");
    assert_eq!(byte_len_of("аб1"), 5);
}

#[test]
fn letters_of_a_name_are_told_apart_by_case() {
    assert_eq!(fuzzy_confidence_for("тФормат", "Формат", 1), None);
    assert!(fuzzy_confidence_for("ТФормат", "Формат", 1).is_some());
    assert_eq!(fuzzy_confidence_for("Формат1", "Формат", 1), None);
}

#[test]
fn profiles_are_read_from_text() {
    assert_eq!(Profile::parse_or_default(Some("\u{a0}Strict\n")), Profile::Strict);
    assert_eq!(Profile::parse_or_default(Some("strictly")), Profile::Full);
}

#[test]
fn paths_of_forms_and_common_modules() {
    assert!(is_form_module(r"base\Catalogs\Х\Forms\Ф\Ext\Form\Module.bsl"));
    assert!(is_common_module("base/CommonModules/Х/Ext/Module.bsl"));
    assert!(!is_common_module("base/Catalogs/Х/Ext/ManagerModule.bsl"));
}
