//! Whole modules and their directives.
use bsl_context::declarations::scan_declarations_with_pos;
use bsl_context::directives::{closest_directive_with_distance, is_known_directive, scan_directives};
use bsl_context::facts::{
    AssignFact, AstFacts, CallFact, DotFact, ManagerCallFact, NewFact, ParsedModule, ProcScope, QueryText, TextSpan,
};
use bsl_context::platform::PlatformIndex;
use bsl_context::{
    validate_module_with_profile, validate_module_with_symbols, Confidence, ExprError, ExprErrorKind,
    ExpressionValidation, ObjectSchema, Profile, SymbolSource,
};

/// A lexeme of a module: its text and the byte at which it stands.
#[derive(Clone, Debug)]
struct Lexeme {
    text: String,
    byte: usize,
    is_name: bool,
    is_literal: bool,
}

fn blank(bytes: &mut [u8], from: usize, to: usize) {
    for b in &mut bytes[from..to] {
        if *b != b'\n' {
            *b = b' ';
        }
    }
}

/// Splits a module into lexemes, and blanks its strings and comments.
fn lexemes(src: &str) -> (Vec<Lexeme>, String) {
    let mut cleaned = src.as_bytes().to_vec();
    let chars: Vec<(usize, char)> = src.char_indices().collect();
    let end_of = |i: usize| if i < chars.len() { chars[i].0 } else { src.len() };
    let mut out = Vec::new();
    let mut i = 0;
    while i < chars.len() {
        let (byte, c) = chars[i];
        if c == '/' && i + 1 < chars.len() && chars[i + 1].1 == '/' {
            let mut j = i;
            while j < chars.len() && chars[j].1 != '\n' {
                j += 1;
            }
            blank(&mut cleaned, byte, end_of(j));
            i = j;
        } else if c == '"' {
            let mut j = i + 1;
            while j < chars.len() && chars[j].1 != '"' {
                j += 1;
            }
            let end = end_of(j + 1);
            blank(&mut cleaned, byte, end);
            out.push(Lexeme {
                text: src[end_of(i + 1)..end_of(j)].to_string(),
                byte: end_of(i + 1),
                is_name: false,
                is_literal: true,
            });
            i = j + 1;
        } else if c.is_alphanumeric() || c == '_' {
            let mut j = i;
            while j < chars.len() && (chars[j].1.is_alphanumeric() || chars[j].1 == '_') {
                j += 1;
            }
            out.push(Lexeme {
                text: src[byte..end_of(j)].to_string(),
                byte,
                is_name: !c.is_numeric(),
                is_literal: false,
            });
            i = j;
        } else {
            if !c.is_whitespace() && c != '\u{FEFF}' {
                out.push(Lexeme { text: c.to_string(), byte, is_name: false, is_literal: false });
            }
            i += 1;
        }
    }
    (out, String::from_utf8(cleaned).unwrap())
}

/// The query text that a literal holds, where it holds one.
fn query_of(literal: &Lexeme) -> Option<QueryText> {
    let lower = literal.text.trim_start().to_lowercase();
    if !lower.starts_with("выбрать") && !lower.starts_with("select") {
        return None;
    }
    let mut text = String::new();
    let mut spans = Vec::new();
    let mut at = literal.byte;
    for (n, line) in literal.text.split('\n').enumerate() {
        let mut piece = line;
        let mut start = at;
        if n > 0 {
            text.push('\n');
            let bar = line.find('|').map(|b| b + 1).unwrap_or(0);
            piece = &line[bar..];
            start = at + bar;
        }
        spans.push(TextSpan { text_start: text.len(), module_start: start });
        text.push_str(piece);
        at += line.len() + 1;
    }
    Some(QueryText { text, spans })
}

/// The number of arguments in the brackets that open at `open`.
fn arguments(l: &[Lexeme], open: usize) -> usize {
    if open + 1 < l.len() && l[open + 1].text == ")" && !l[open + 1].is_literal {
        return 0;
    }
    let mut depth = 0;
    let mut count = 1;
    for x in &l[open..] {
        if x.is_literal {
            continue;
        }
        match x.text.as_str() {
            "(" => depth += 1,
            ")" => {
                depth -= 1;
                if depth == 0 {
                    break;
                }
            }
            "," if depth == 1 => count += 1,
            _ => {}
        }
    }
    count
}

/// Reads a module: a reader that is enough for the modules of these tests.
fn parse_module(src: &str) -> ParsedModule {
    let (l, cleaned) = lexemes(src);
    let mut facts = AstFacts::new();
    let mut queries = Vec::new();
    let is = |i: usize, s: &str| i < l.len() && !l[i].is_literal && l[i].text == s;
    let low = |i: usize| if i < l.len() && l[i].is_name { l[i].text.to_lowercase() } else { String::new() };
    let keywords = [
        "если", "иначеесли", "пока", "и", "или", "не", "возврат", "новый", "процедура", "функция",
        "procedure", "function",
    ];
    let mut directive = String::new();
    let mut i = 0;
    while i < l.len() {
        let before_dot = i > 0 && is(i - 1, ".");
        let word = low(i);
        if l[i].is_literal {
            let added = (i > 0 && is(i - 1, "+")) || is(i + 1, "+");
            if !added {
                queries.extend(query_of(&l[i]));
            }
        } else if is(i, "&") {
            facts.has_directives = true;
            directive = low(i + 1);
            i += 1;
        } else if before_dot || !l[i].is_name {
        } else if ["процедура", "функция", "procedure", "function"].contains(&word.as_str()) {
            facts.declarations.push(low(i + 1));
            let mut params = Vec::new();
            let mut j = i + 2;
            while j < l.len() && !is(j, ")") {
                if l[j].is_name && low(j) != "знач" && (is(j + 1, ",") || is(j + 1, ")") || is(j + 1, "=")) {
                    params.push(low(j));
                }
                j += 1;
            }
            let mut k = j;
            while k < l.len()
                && !["конецпроцедуры", "конецфункции", "endprocedure", "endfunction"].contains(&low(k).as_str())
            {
                k += 1;
            }
            let byte_end = if k < l.len() { l[k].byte + l[k].text.len() } else { src.len() };
            facts.procs.push(ProcScope {
                byte_start: l[i].byte,
                byte_end,
                params,
                no_context: directive.ends_with("безконтекста") || directive.ends_with("nocontext"),
            });
            directive.clear();
            i = j;
        } else if word == "новый" {
            facts.news.push(NewFact { name: l[i + 1].text.clone(), byte: l[i + 1].byte });
            i += 1;
        } else if word == "перем" {
            facts.assigns.push(AssignFact { name: l[i + 1].text.clone(), byte: l[i + 1].byte, declaration: true });
            i += 1;
        } else if word == "для" {
            let at = if low(i + 1) == "каждого" { i + 2 } else { i + 1 };
            facts.loop_vars.push(low(at));
            i = at;
        } else if is(i + 1, ".") && i + 2 < l.len() && l[i + 2].is_name {
            facts.dots.push(DotFact {
                head: l[i].text.clone(),
                head_byte: l[i].byte,
                member: l[i + 2].text.clone(),
                member_byte: l[i + 2].byte,
                member_is_call: is(i + 3, "("),
            });
            if is(i + 3, ".") && i + 4 < l.len() && is(i + 5, "(") {
                facts.manager_calls.push(ManagerCallFact {
                    collection: l[i].text.clone(),
                    object: l[i + 2].text.clone(),
                    method: l[i + 4].text.clone(),
                    method_byte: l[i + 4].byte,
                });
            }
        } else if is(i + 1, "(") && !keywords.contains(&word.as_str()) {
            facts.calls.push(CallFact {
                name: l[i].text.clone(),
                byte: l[i].byte,
                arg_count: arguments(&l, i + 1),
            });
        } else if is(i + 1, "=") && (i == 0 || is(i - 1, ";") || is(i - 1, ")") || low(i - 1) == "цикл" || low(i - 1) == "экспорт") {
            facts.assigns.push(AssignFact { name: l[i].text.clone(), byte: l[i].byte, declaration: false });
        }
        i += 1;
    }
    let scanned_declarations = facts.declarations.clone();
    ParsedModule { source: src.to_string(), cleaned, facts, scanned_declarations, queries }
}

fn check_with_symbols(
    index: &PlatformIndex,
    src: &str,
    level: u8,
    profile: Profile,
    path: Option<&str>,
    attributes: Option<&Vec<String>>,
    symbols: Option<&StubSource>,
) -> ExpressionValidation {
    validate_module_with_symbols(index, &parse_module(src), level, profile, path, attributes, symbols)
}

fn check_with_profile(
    index: &PlatformIndex,
    src: &str,
    path: Option<&str>,
    attributes: Option<&Vec<String>>,
    level: u8,
    profile: Profile,
) -> ExpressionValidation {
    validate_module_with_profile(index, &parse_module(src), path, attributes, level, profile)
}

#[test]
fn known_directives_include_common_forms() {
    assert!(is_known_directive("НаСервере"));
    assert!(is_known_directive("насервере"));
    assert!(is_known_directive("AtClient"));
    assert!(is_known_directive("Перед"));
    assert!(is_known_directive("ChangeAndValidate"));
}

#[test]
fn unknown_directive_typo_gives_close_suggestion() {
    let (suggestion, distance) = closest_directive_with_distance("НаКлентее").unwrap();
    assert_eq!(suggestion, "НаКлиенте");
    assert_eq!(distance, 2);
}

fn collect_names(src: &str) -> Vec<String> {
    scan_declarations_with_pos(&lexemes(src).1).into_iter().map(|d| d.name_lower).collect()
}

fn collect_directive_errors(src: &str) -> Vec<ExprError> {
    let cleaned = lexemes(src).1;
    let mut errors = Vec::new();
    scan_directives(&cleaned, &mut errors);
    errors
}

#[test]
fn known_directive_yields_no_error() {
    let src = "\
&НаСервере
Процедура ОбработатьНаСервере()
КонецПроцедуры
";
    let errors = collect_directive_errors(src);
    assert!(
        errors.is_empty(),
        "известная директива дала ошибку: {:?}",
        errors
    );
}

#[test]
fn typo_directive_yields_error() {
    let src = "\
&НаКлентее
Процедура НаКлиенте()
КонецПроцедуры
";
    let errors = collect_directive_errors(src);
    let unknown = errors
        .iter()
        .filter(|e| matches!(e.kind, ExprErrorKind::UnknownDirective))
        .count();
    assert_eq!(unknown, 1, "должна быть одна UnknownDirective: {:?}", errors);
    let e = errors
        .iter()
        .find(|e| matches!(e.kind, ExprErrorKind::UnknownDirective))
        .unwrap();
    assert_eq!(e.suggestion.as_deref(), Some("НаКлиенте"));
}

#[test]
fn module_override_directive_ok() {
    let src = "\
&Перед(\"ОригинальнаяПроцедура\")
Процедура Ext_ОригинальнаяПроцедура()
КонецПроцедуры
";
    let errors = collect_directive_errors(src);
    assert!(
        errors.is_empty(),
        "директива расширения дала ошибку: {:?}",
        errors
    );
}

struct StubSource {
    global_export: bool,
    exists: bool,
    owner: Option<Vec<String>>,
}

impl SymbolSource for StubSource {
    fn describe(&self) -> String {
        "stub".to_string()
    }

    fn is_global_export(&self, _name_lower: &str) -> bool {
        self.global_export
    }

    fn method_exists(&self, _name_lower: &str) -> bool {
        self.exists
    }

    fn owner_exports(&self, _path: &str) -> Option<Vec<String>> {
        self.owner.clone()
    }

    fn object_exists(&self, _collection: &str, _name_lower: &str) -> Option<bool> {
        None
    }

    fn collection_names(&self, _collection: &str) -> Option<Vec<String>> {
        None
    }

    fn global_variables(&self) -> Option<Vec<String>> {
        None
    }

    fn object_schema(&self, _collection: &str, _name_lower: &str) -> Option<ObjectSchema> {
        None
    }
}

fn module_with_unknown_call() -> &'static str {
    "\
Процедура Тест()
НеизвестныйВызов();
КонецПроцедуры
"
}

#[test]
fn symbols_global_export_suppresses_finding() {
    let index = PlatformIndex::new();
    let source = StubSource {
        global_export: true,
        exists: false,
        owner: None,
    };
    let result = check_with_symbols(
        &index,
        module_with_unknown_call(),
        1,
        Profile::Full,
        None,
        None,
        Some(&source),
    );
    assert!(
        result.errors.is_empty(),
        "экспорт глобального модуля не должен давать находку: {:?}",
        result.errors
    );
}

#[test]
fn symbols_owner_export_suppresses_finding() {
    let index = PlatformIndex::new();
    let mut owner = Vec::new();
    owner.push("неизвестныйвызов".to_string());
    let source = StubSource {
        global_export: false,
        exists: false,
        owner: Some(owner),
    };
    let result = check_with_symbols(
        &index,
        module_with_unknown_call(),
        1,
        Profile::Full,
        Some("external/Обр/Form/Ф/Form.obj.bsl"),
        None,
        Some(&source),
    );
    assert!(
        result.errors.is_empty(),
        "метод модуля объекта-владельца не должен давать находку: {:?}",
        result.errors
    );
}

#[test]
fn symbols_method_exists_downgrades_confidence() {
    let index = PlatformIndex::new();
    let source = StubSource {
        global_export: false,
        exists: true,
        owner: None,
    };
    let result = check_with_symbols(
        &index,
        module_with_unknown_call(),
        1,
        Profile::Full,
        None,
        None,
        Some(&source),
    );
    let finding = result
        .errors
        .iter()
        .find(|e| matches!(e.kind, ExprErrorKind::UndeclaredMethod))
        .expect("метод есть в конфигурации — находка должна остаться");
    assert_eq!(finding.confidence, Confidence::Low);
}

#[test]
fn no_symbol_source_keeps_high_confidence() {
    let index = PlatformIndex::new();
    let result = check_with_symbols(
        &index,
        module_with_unknown_call(),
        1,
        Profile::Full,
        None,
        None,
        None,
    );
    let finding = result
        .errors
        .iter()
        .find(|e| matches!(e.kind, ExprErrorKind::UndeclaredMethod))
        .expect("без источника поведение должно быть прежним — находка есть");
    assert_eq!(finding.confidence, Confidence::High);
}

#[test]
fn validate_module_with_profile_accepts_module_path() {
    let index = PlatformIndex::new();
    let result = check_with_profile(
        &index,
        "Процедура Т()\nРезультат = \"текст\";\nКонецПроцедуры\n",
        Some("base/Catalogs/Х/Forms/Ф/Ext/Form/Module.bsl"),
        None,
        1,
        Profile::Full,
    );
    assert!(result.errors.is_empty(), "{:?}", result.errors);
}

#[test]
fn extract_declarations_finds_proc_and_func() {
    let src = "\
Процедура МояПроцедура() Экспорт
КонецПроцедуры

Функция МояФункция(Пар)
Возврат Пар;
КонецФункции
";
    let names = collect_names(src);
    assert!(names.contains(&"мояпроцедура".to_string()), "proc не найдена: {:?}", names);
    assert!(names.contains(&"мояфункция".to_string()), "func не найдена: {:?}", names);
}

#[test]
fn extract_declarations_empty_on_binary() {
    let names = collect_names("\u{0}\u{2}garbage\u{0}");
    assert!(names.is_empty());
}

#[test]
fn bom_does_not_break_declarations() {
    let src = "\u{FEFF}Процедура МояПроцедура() Экспорт\nКонецПроцедуры\n";
    let names = collect_names(src);
    assert!(
        names.contains(&"мояпроцедура".to_string()),
        "BOM сломал сбор объявлений: {:?}",
        names
    );
}

#[test]
fn extract_declarations_english_keywords() {
    let src = "\
Procedure OnOpen() Export
EndProcedure

Function GetData(P) Export
Return P;
EndFunction
";
    let names = collect_names(src);
    assert!(names.contains(&"onopen".to_string()), "OnOpen не найден: {:?}", names);
    assert!(names.contains(&"getdata".to_string()), "GetData не найден: {:?}", names);
}
