//! Common modules and objects of a configuration.
use bsl_context::facts::{
    AssignFact, AstFacts, CallFact, DotFact, ManagerCallFact, NewFact, ParsedModule, ProcScope, QueryText, TextSpan,
};
use bsl_context::platform::{Method, PlatformIndex, Property, Type};
use bsl_context::{
    validate_module_with_symbols, Confidence, ExprErrorKind, ExpressionValidation, ObjectSchema, Profile, SymbolSource,
};

/// A lexeme of a module: its text and the byte at which it stands.
#[derive(Clone, Debug)]
struct Lexeme {
    text: String,
    byte: usize,
    is_name: bool,
    is_literal: bool,
}

fn blank(bytes: &mut [u8], from: usize, to: usize) {
    for b in &mut bytes[from..to] {
        if *b != b'\n' {
            *b = b' ';
        }
    }
}

/// Splits a module into lexemes, and blanks its strings and comments.
fn lexemes(src: &str) -> (Vec<Lexeme>, String) {
    let mut cleaned = src.as_bytes().to_vec();
    let chars: Vec<(usize, char)> = src.char_indices().collect();
    let end_of = |i: usize| if i < chars.len() { chars[i].0 } else { src.len() };
    let mut out = Vec::new();
    let mut i = 0;
    while i < chars.len() {
        let (byte, c) = chars[i];
        if c == '/' && i + 1 < chars.len() && chars[i + 1].1 == '/' {
            let mut j = i;
            while j < chars.len() && chars[j].1 != '\n' {
                j += 1;
            }
            blank(&mut cleaned, byte, end_of(j));
            i = j;
        } else if c == '"' {
            let mut j = i + 1;
            while j < chars.len() && chars[j].1 != '"' {
                j += 1;
            }
            let end = end_of(j + 1);
            blank(&mut cleaned, byte, end);
            out.push(Lexeme {
                text: src[end_of(i + 1)..end_of(j)].to_string(),
                byte: end_of(i + 1),
                is_name: false,
                is_literal: true,
            });
            i = j + 1;
        } else if c.is_alphanumeric() || c == '_' {
            let mut j = i;
            while j < chars.len() && (chars[j].1.is_alphanumeric() || chars[j].1 == '_') {
                j += 1;
            }
            out.push(Lexeme {
                text: src[byte..end_of(j)].to_string(),
                byte,
                is_name: !c.is_numeric(),
                is_literal: false,
            });
            i = j;
        } else {
            if !c.is_whitespace() && c != '\u{FEFF}' {
                out.push(Lexeme { text: c.to_string(), byte, is_name: false, is_literal: false });
            }
            i += 1;
        }
    }
    (out, String::from_utf8(cleaned).unwrap())
}

/// The query text that a literal holds, where it holds one.
fn query_of(literal: &Lexeme) -> Option<QueryText> {
    let lower = literal.text.trim_start().to_lowercase();
    if !lower.starts_with("выбрать") && !lower.starts_with("select") {
        return None;
    }
    let mut text = String::new();
    let mut spans = Vec::new();
    let mut at = literal.byte;
    for (n, line) in literal.text.split('\n').enumerate() {
        let mut piece = line;
        let mut start = at;
        if n > 0 {
            text.push('\n');
            let bar = line.find('|').map(|b| b + 1).unwrap_or(0);
            piece = &line[bar..];
            start = at + bar;
        }
        spans.push(TextSpan { text_start: text.len(), module_start: start });
        text.push_str(piece);
        at += line.len() + 1;
    }
    Some(QueryText { text, spans })
}

/// The number of arguments in the brackets that open at `open`.
fn arguments(l: &[Lexeme], open: usize) -> usize {
    if open + 1 < l.len() && l[open + 1].text == ")" && !l[open + 1].is_literal {
        return 0;
    }
    let mut depth = 0;
    let mut count = 1;
    for x in &l[open..] {
        if x.is_literal {
            continue;
        }
        match x.text.as_str() {
            "(" => depth += 1,
            ")" => {
                depth -= 1;
                if depth == 0 {
                    break;
                }
            }
            "," if depth == 1 => count += 1,
            _ => {}
        }
    }
    count
}

/// Reads a module: a reader that is enough for the modules of these tests.
fn parse_module(src: &str) -> ParsedModule {
    let (l, cleaned) = lexemes(src);
    let mut facts = AstFacts::new();
    let mut queries = Vec::new();
    let is = |i: usize, s: &str| i < l.len() && !l[i].is_literal && l[i].text == s;
    let low = |i: usize| if i < l.len() && l[i].is_name { l[i].text.to_lowercase() } else { String::new() };
    let keywords = [
        "если", "иначеесли", "пока", "и", "или", "не", "возврат", "новый", "процедура", "функция",
        "procedure", "function",
    ];
    let mut directive = String::new();
    let mut i = 0;
    while i < l.len() {
        let before_dot = i > 0 && is(i - 1, ".");
        let word = low(i);
        if l[i].is_literal {
            let added = (i > 0 && is(i - 1, "+")) || is(i + 1, "+");
            if !added {
                queries.extend(query_of(&l[i]));
            }
        } else if is(i, "&") {
            facts.has_directives = true;
            directive = low(i + 1);
            i += 1;
        } else if before_dot || !l[i].is_name {
        } else if ["процедура", "функция", "procedure", "function"].contains(&word.as_str()) {
            facts.declarations.push(low(i + 1));
            let mut params = Vec::new();
            let mut j = i + 2;
            while j < l.len() && !is(j, ")") {
                if l[j].is_name && low(j) != "знач" && (is(j + 1, ",") || is(j + 1, ")") || is(j + 1, "=")) {
                    params.push(low(j));
                }
                j += 1;
            }
            let mut k = j;
            while k < l.len()
                && !["конецпроцедуры", "конецфункции", "endprocedure", "endfunction"].contains(&low(k).as_str())
            {
                k += 1;
            }
            let byte_end = if k < l.len() { l[k].byte + l[k].text.len() } else { src.len() };
            facts.procs.push(ProcScope {
                byte_start: l[i].byte,
                byte_end,
                params,
                no_context: directive.ends_with("безконтекста") || directive.ends_with("nocontext"),
            });
            directive.clear();
            i = j;
        } else if word == "новый" {
            facts.news.push(NewFact { name: l[i + 1].text.clone(), byte: l[i + 1].byte });
            i += 1;
        } else if word == "перем" {
            facts.assigns.push(AssignFact { name: l[i + 1].text.clone(), byte: l[i + 1].byte, declaration: true });
            i += 1;
        } else if word == "для" {
            let at = if low(i + 1) == "каждого" { i + 2 } else { i + 1 };
            facts.loop_vars.push(low(at));
            i = at;
        } else if is(i + 1, ".") && i + 2 < l.len() && l[i + 2].is_name {
            facts.dots.push(DotFact {
                head: l[i].text.clone(),
                head_byte: l[i].byte,
                member: l[i + 2].text.clone(),
                member_byte: l[i + 2].byte,
                member_is_call: is(i + 3, "("),
            });
            if is(i + 3, ".") && i + 4 < l.len() && is(i + 5, "(") {
                facts.manager_calls.push(ManagerCallFact {
                    collection: l[i].text.clone(),
                    object: l[i + 2].text.clone(),
                    method: l[i + 4].text.clone(),
                    method_byte: l[i + 4].byte,
                });
            }
        } else if is(i + 1, "(") && !keywords.contains(&word.as_str()) {
            facts.calls.push(CallFact {
                name: l[i].text.clone(),
                byte: l[i].byte,
                arg_count: arguments(&l, i + 1),
            });
        } else if is(i + 1, "=") && (i == 0 || is(i - 1, ";") || is(i - 1, ")") || low(i - 1) == "цикл" || low(i - 1) == "экспорт") {
            facts.assigns.push(AssignFact { name: l[i].text.clone(), byte: l[i].byte, declaration: false });
        }
        i += 1;
    }
    let scanned_declarations = facts.declarations.clone();
    ParsedModule { source: src.to_string(), cleaned, facts, scanned_declarations, queries }
}

fn check_with_symbols(
    index: &PlatformIndex,
    src: &str,
    level: u8,
    profile: Profile,
    path: Option<&str>,
    attributes: Option<&Vec<String>>,
    symbols: Option<&StubSource>,
) -> ExpressionValidation {
    validate_module_with_symbols(index, &parse_module(src), level, profile, path, attributes, symbols)
}

struct StubSource {
    common_modules: Vec<String>,
    catalogs: Vec<String>,
    documents: Vec<String>,
    global_vars: Vec<String>,
    knows_global_vars: bool,
    silent: bool,
}

impl StubSource {
    fn new() -> Self {
        Self {
            common_modules: ["ОбщегоНазначения", "УправлениеДоступом"]
                .into_iter()
                .map(String::from)
                .collect(),
            catalogs: ["Номенклатура"].into_iter().map(String::from).collect(),
            documents: Vec::new(),
            global_vars: ["параметрыприложения"].into_iter().map(String::from).collect(),
            knows_global_vars: true,
            silent: false,
        }
    }

    fn silent() -> Self {
        Self {
            silent: true,
            ..Self::new()
        }
    }

    fn without_global_vars() -> Self {
        Self {
            knows_global_vars: false,
            ..Self::new()
        }
    }
}

impl SymbolSource for StubSource {
    fn describe(&self) -> String {
        "stub".to_string()
    }

    fn method_exists(&self, _name_lower: &str) -> bool {
        false
    }

    fn object_exists(&self, collection: &str, name_lower: &str) -> Option<bool> {
        if self.silent {
            return None;
        }
        let names: &Vec<String> = match collection {
            "CommonModules" => &self.common_modules,
            "Catalogs" => &self.catalogs,
            "Documents" => &self.documents,
            _ => return None,
        };
        Some(names.iter().any(|n| n.to_lowercase() == name_lower))
    }

    fn collection_names(&self, collection: &str) -> Option<Vec<String>> {
        if self.silent {
            return None;
        }
        match collection {
            "CommonModules" => Some(self.common_modules.clone()),
            "Catalogs" => Some(self.catalogs.clone()),
            "Documents" => Some(self.documents.clone()),
            _ => None,
        }
    }

    fn global_variables(&self) -> Option<Vec<String>> {
        if self.silent || !self.knows_global_vars {
            return None;
        }
        Some(self.global_vars.clone())
    }

    fn is_global_export(&self, _name_lower: &str) -> bool {
        false
    }

    fn owner_exports(&self, _path: &str) -> Option<Vec<String>> {
        None
    }

    fn object_schema(&self, _collection: &str, _name_lower: &str) -> Option<ObjectSchema> {
        None
    }
}

fn empty_index() -> PlatformIndex {
    PlatformIndex::new()
}

fn index_with_platform_context() -> PlatformIndex {
    let mut index = PlatformIndex::new();

    index.global_properties.push(Property {
        name_ru: "Метаданные".into(),
        name_en: "Metadata".into(),
        description: String::new(),
        value_type: String::new(),
        readonly: true,
    });

    index.insert_type(Type {
        name_ru: "ВидДвиженияНакопления".into(),
        name_en: "AccumulationRecordType".into(),
        description: String::new(),
        methods: Vec::new(),
        properties: Vec::new(),
        constructors: Vec::new(),
        enum_values: Vec::new(),
    });

    index.insert_type(Type {
        name_ru: "ФормаКлиентскогоПриложения".into(),
        name_en: "ManagedClientApplicationForm".into(),
        description: String::new(),
        methods: vec![Method {
            name_ru: "Закрыть".into(),
            name_en: "Close".into(),
            description: String::new(),
            return_type: String::new(),
            signatures: Vec::new(),
        }],
        properties: vec![Property {
            name_ru: "Элементы".into(),
            name_en: "Items".into(),
            description: String::new(),
            value_type: String::new(),
            readonly: true,
        }],
        constructors: Vec::new(),
        enum_values: Vec::new(),
    });

    index
}

fn attrs(names: &[&str]) -> Vec<String> {
    names.iter().map(|s| s.to_string()).collect()
}

#[test]
fn invented_common_module_without_module_path_is_reported() {
    let index = empty_index();
    let source = StubSource::new();
    let result = check_with_symbols(
        &index,
        "Процедура Тест()\nУправлениеПрогрессом.Установить(1, 0);\nКонецПроцедуры\n",
        1,
        Profile::Full,
        None,
        None,
        Some(&source),
    );
    assert_eq!(
        result.errors.len(),
        1,
        "ожидалась ровно одна находка: {:?}",
        result.errors
    );
    let finding = &result.errors[0];
    assert_eq!(finding.kind, ExprErrorKind::UnknownCommonModule);
    assert_eq!(finding.confidence, Confidence::High);
}

#[test]
fn known_common_module_is_silent() {
    let index = empty_index();
    let source = StubSource::new();
    let result = check_with_symbols(
        &index,
        "Процедура Тест()\nОбщегоНазначения.МодульВыполненияЗапросов();\nКонецПроцедуры\n",
        1,
        Profile::Full,
        None,
        None,
        Some(&source),
    );
    assert!(result.errors.is_empty(), "{:?}", result.errors);
}

#[test]
fn invented_catalog_is_reported() {
    let index = empty_index();
    let source = StubSource::new();
    let result = check_with_symbols(
        &index,
        "Процедура Тест()\nСправочники.НесуществующийСправочник.ПустаяСсылка();\nКонецПроцедуры\n",
        1,
        Profile::Full,
        None,
        None,
        Some(&source),
    );
    assert!(
        result
            .errors
            .iter()
            .any(|e| e.kind == ExprErrorKind::UnknownMetadataObject),
        "{:?}",
        result.errors
    );
}

#[test]
fn known_catalog_is_silent() {
    let index = empty_index();
    let source = StubSource::new();
    let result = check_with_symbols(
        &index,
        "Процедура Тест()\nСправочники.Номенклатура.ПустаяСсылка();\nКонецПроцедуры\n",
        1,
        Profile::Full,
        None,
        None,
        Some(&source),
    );
    assert!(result.errors.is_empty(), "{:?}", result.errors);
}

#[test]
fn assignment_shadows_known_common_module_name() {
    let index = empty_index();
    let source = StubSource::new();
    let result = check_with_symbols(
        &index,
        "Процедура Тест()\nУправлениеДоступом = 5;\nУправлениеДоступом.Метод();\nКонецПроцедуры\n",
        1,
        Profile::Full,
        None,
        None,
        Some(&source),
    );
    assert!(result.errors.is_empty(), "{:?}", result.errors);
}

#[test]
fn assignment_shadows_invented_common_module_name() {
    let index = empty_index();
    let source = StubSource::new();
    let result = check_with_symbols(
        &index,
        "Процедура Тест()\nУправлениеПрогрессом = 5;\nУправлениеПрогрессом.Метод();\nКонецПроцедуры\n",
        1,
        Profile::Full,
        None,
        None,
        Some(&source),
    );
    assert!(result.errors.is_empty(), "{:?}", result.errors);
}

#[test]
fn silent_source_suppresses_common_module_finding() {
    let index = empty_index();
    let source = StubSource::silent();
    let result = check_with_symbols(
        &index,
        "Процедура Тест()\nУправлениеПрогрессом.Установить(1, 0);\nКонецПроцедуры\n",
        1,
        Profile::Full,
        None,
        None,
        Some(&source),
    );
    assert!(result.errors.is_empty(), "{:?}", result.errors);
}

#[test]
fn silent_source_suppresses_catalog_finding() {
    let index = empty_index();
    let source = StubSource::silent();
    let result = check_with_symbols(
        &index,
        "Процедура Тест()\nСправочники.НесуществующийСправочник.ПустаяСсылка();\nКонецПроцедуры\n",
        1,
        Profile::Full,
        None,
        None,
        Some(&source),
    );
    assert!(result.errors.is_empty(), "{:?}", result.errors);
}

#[test]
fn same_name_different_collections() {
    let index = empty_index();
    let source = StubSource::new();

    let catalog_result = check_with_symbols(
        &index,
        "Процедура Тест()\nСправочники.Номенклатура.ПустаяСсылка();\nКонецПроцедуры\n",
        1,
        Profile::Full,
        None,
        None,
        Some(&source),
    );
    assert!(
        catalog_result.errors.is_empty(),
        "Справочники.Номенклатура должен быть тихим: {:?}",
        catalog_result.errors
    );

    let document_result = check_with_symbols(
        &index,
        "Процедура Тест()\nДокументы.Номенклатура.ПустаяСсылка();\nКонецПроцедуры\n",
        1,
        Profile::Full,
        None,
        None,
        Some(&source),
    );
    assert!(
        document_result
            .errors
            .iter()
            .any(|e| e.kind == ExprErrorKind::UnknownMetadataObject),
        "Документы.Номенклатура должен дать находку (Documents пуста): {:?}",
        document_result.errors
    );
}

#[test]
fn typo_gives_suggestion_invented_name_does_not() {
    let index = empty_index();
    let source = StubSource::new();

    let typo_result = check_with_symbols(
        &index,
        "Процедура Тест()\nОбщегоНазначнеия.Метод();\nКонецПроцедуры\n",
        1,
        Profile::Full,
        None,
        None,
        Some(&source),
    );
    let typo_finding = typo_result
        .errors
        .iter()
        .find(|e| e.kind == ExprErrorKind::UnknownCommonModule)
        .expect("опечатка в имени общего модуля должна дать находку");
    assert_eq!(
        typo_finding.suggestion,
        Some("ОбщегоНазначения".to_string()),
        "{:?}",
        typo_result.errors
    );

    let invented_result = check_with_symbols(
        &index,
        "Процедура Тест()\nУправлениеПрогрессом.Установить();\nКонецПроцедуры\n",
        1,
        Profile::Full,
        None,
        None,
        Some(&source),
    );
    let invented_finding = invented_result
        .errors
        .iter()
        .find(|e| e.kind == ExprErrorKind::UnknownCommonModule)
        .expect("выдуманное имя тоже должно дать находку");
    assert_eq!(
        invented_finding.suggestion, None,
        "выдуманное имя не опечатка — подсказки быть не должно: {:?}",
        invented_result.errors
    );
}

#[test]
fn object_module_requisite_is_silent() {
    let index = empty_index();
    let source = StubSource::new();
    let result = check_with_symbols(
        &index,
        "Процедура Тест()\nТовары.Очистить();\nКонецПроцедуры\n",
        1,
        Profile::Full,
        Some("base/Documents/Заказ/Ext/ObjectModule.bsl"),
        None,
        Some(&source),
    );
    assert!(result.errors.is_empty(), "{:?}", result.errors);
}

#[test]
fn form_module_without_attributes_is_silent() {
    let index = empty_index();
    let source = StubSource::new();
    let result = check_with_symbols(
        &index,
        "Процедура Тест()\nСписокТоваров.Очистить();\nКонецПроцедуры\n",
        1,
        Profile::Full,
        Some("base/Documents/Заказ/Forms/Форма/Ext/Form/Module.bsl"),
        None,
        Some(&source),
    );
    assert!(result.errors.is_empty(), "{:?}", result.errors);
}

#[test]
fn form_module_with_known_attribute_is_silent() {
    let index = empty_index();
    let source = StubSource::new();
    let result = check_with_symbols(
        &index,
        "Процедура Тест()\nСписокТоваров.Очистить();\nКонецПроцедуры\n",
        1,
        Profile::Full,
        Some("base/Documents/Заказ/Forms/Форма/Ext/Form/Module.bsl"),
        Some(&attrs(&["списоктоваров"])),
        Some(&source),
    );
    assert!(result.errors.is_empty(), "{:?}", result.errors);
}

#[test]
fn form_module_object_attribute_is_silent() {
    let index = empty_index();
    let source = StubSource::new();
    let result = check_with_symbols(
        &index,
        "Процедура Тест()\nОбъект.Записать();\nКонецПроцедуры\n",
        1,
        Profile::Full,
        Some("base/Documents/Заказ/Forms/Форма/Ext/Form/Module.bsl"),
        Some(&attrs(&["объект"])),
        Some(&source),
    );
    assert!(result.errors.is_empty(), "{:?}", result.errors);
}

#[test]
fn common_module_unknown_head_is_reported() {
    let index = empty_index();
    let source = StubSource::new();
    let result = check_with_symbols(
        &index,
        "Процедура Тест()\nТовары.Очистить();\nКонецПроцедуры\n",
        1,
        Profile::Full,
        Some("base/CommonModules/МойМодуль/Ext/Module.bsl"),
        None,
        Some(&source),
    );
    assert!(
        result
            .errors
            .iter()
            .any(|e| e.kind == ExprErrorKind::UnknownCommonModule),
        "{:?}",
        result.errors
    );
}

#[test]
fn foreach_loop_variable_is_not_a_common_module() {
    let index = empty_index();
    let source = StubSource::new();
    let result = check_with_symbols(
        &index,
        "Процедура Тест()\nДля Каждого КлючЗначение Из Структура Цикл\nЗ = КлючЗначение.Ключ;\nКонецЦикла;\nКонецПроцедуры\n",
        1,
        Profile::Full,
        Some("base/CommonModules/МойМодуль/Ext/Module.bsl"),
        None,
        Some(&source),
    );
    assert!(
        !result
            .errors
            .iter()
            .any(|e| e.kind == ExprErrorKind::UnknownCommonModule),
        "{:?}",
        result.errors
    );
}

#[test]
fn counter_loop_variable_is_not_a_common_module() {
    let index = empty_index();
    let source = StubSource::new();
    let result = check_with_symbols(
        &index,
        "Процедура Тест()\nДля Сч = 1 По 10 Цикл\nЗ = Сч.Представление;\nКонецЦикла;\nКонецПроцедуры\n",
        1,
        Profile::Full,
        Some("base/CommonModules/МойМодуль/Ext/Module.bsl"),
        None,
        Some(&source),
    );
    assert!(
        !result
            .errors
            .iter()
            .any(|e| e.kind == ExprErrorKind::UnknownCommonModule),
        "{:?}",
        result.errors
    );
}

#[test]
fn application_module_variable_is_not_a_common_module() {
    let index = empty_index();
    let source = StubSource::new();
    let result = check_with_symbols(
        &index,
        "Процедура Тест()\nПараметрыПриложения.Вставить(\"Ключ\", 1);\nКонецПроцедуры\n",
        1,
        Profile::Full,
        Some("base/CommonModules/МойМодуль/Ext/Module.bsl"),
        None,
        Some(&source),
    );
    assert!(result.errors.is_empty(), "{:?}", result.errors);
}

#[test]
fn source_without_global_variables_disables_common_module_rule_only() {
    let index = empty_index();
    let source = StubSource::without_global_vars();
    let result = check_with_symbols(
        &index,
        "Процедура Тест()\nУправлениеПрогрессом.Установить(1, 0);\nС = Справочники.НетТакого.ПустаяСсылка();\nКонецПроцедуры\n",
        1,
        Profile::Full,
        Some("base/CommonModules/МойМодуль/Ext/Module.bsl"),
        None,
        Some(&source),
    );
    assert!(
        !result
            .errors
            .iter()
            .any(|e| e.kind == ExprErrorKind::UnknownCommonModule),
        "правило про общий модуль обязано молчать: {:?}",
        result.errors
    );
    assert!(
        result
            .errors
            .iter()
            .any(|e| e.kind == ExprErrorKind::UnknownMetadataObject),
        "правило про объекты должно продолжать работать: {:?}",
        result.errors
    );
}

#[test]
fn platform_global_property_head_is_silent() {
    let index = index_with_platform_context();
    let source = StubSource::new();
    let result = check_with_symbols(
        &index,
        "Процедура Тест()\nМ = Метаданные.Справочники;\nКонецПроцедуры\n",
        1,
        Profile::Full,
        Some("base/CommonModules/МойМодуль/Ext/Module.bsl"),
        None,
        Some(&source),
    );
    assert!(result.errors.is_empty(), "{:?}", result.errors);
}

#[test]
fn platform_type_head_is_silent() {
    let index = index_with_platform_context();
    let source = StubSource::new();
    let result = check_with_symbols(
        &index,
        "Процедура Тест()\nВ = ВидДвиженияНакопления.Приход;\nКонецПроцедуры\n",
        1,
        Profile::Full,
        Some("base/CommonModules/МойМодуль/Ext/Module.bsl"),
        None,
        Some(&source),
    );
    assert!(
        !result
            .errors
            .iter()
            .any(|e| e.kind == ExprErrorKind::UnknownCommonModule),
        "{:?}",
        result.errors
    );
}

#[test]
fn form_context_member_head_is_silent() {
    let index = index_with_platform_context();
    let source = StubSource::new();
    let result = check_with_symbols(
        &index,
        "&НаКлиенте\nПроцедура Тест()\nЭлементы.Список.Видимость = Ложь;\nКонецПроцедуры\n",
        1,
        Profile::Full,
        Some("base/Catalogs/Номенклатура/Forms/ФормаЭлемента/Ext/Form/Module.bsl"),
        Some(&attrs(&["объект"])),
        Some(&source),
    );
    assert!(result.errors.is_empty(), "{:?}", result.errors);
}
