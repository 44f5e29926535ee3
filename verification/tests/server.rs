//! What the server decides.
use bsl_context::check::{validate_enum, validate_method_call};
use bsl_context::facts::{
    AssignFact, AstFacts, CallFact, DotFact, ManagerCallFact, NewFact, ParsedModule, ProcScope, QueryText, TextSpan,
};
use bsl_context::lite_index::records::{module_record, MethodDecl};
use bsl_context::lite_index::tables::build;
use bsl_context::platform::{EnumValue, Method, Parameter, PlatformIndex, Property, Signature, Type};
use bsl_context::server::answers::{get_constructors, get_enum_values, get_member, index_stats, info, Definition, IndexStats, OfType};
use bsl_context::server::config::{Config, ConfigError, SourcePlan, SymbolSourceConfig};
use bsl_context::server::params::{GetMemberParams, InfoParams, ValidateModuleParams};
use bsl_context::server::pid_lock::{is_our_process, recorded_pid, PidLock};
use bsl_context::server::rebuild::{admit_rebuild, Outcome, Rebuild, Stage};
use bsl_context::server::slots::{is_before, SourceSlot};
use bsl_context::server::state::{
    missing_reason, next_step, settle, unavailable_reason, BslContextServer, ModuleReply, Names, SourceState, SourceStep,
    Target,
};
use bsl_context::symbols::{NoSymbols, ObjectSchema, SymbolSource};
use bsl_context::{Confidence, ExprErrorKind, Profile};

/// A lexeme of a module: its text and the byte at which it stands.
#[derive(Clone, Debug)]
struct Lexeme {
    text: String,
    byte: usize,
    is_name: bool,
    is_literal: bool,
}

fn blank(bytes: &mut [u8], from: usize, to: usize) {
    for b in &mut bytes[from..to] {
        if *b != b'\n' {
            *b = b' ';
        }
    }
}

/// Splits a module into lexemes, and blanks its strings and comments.
fn lexemes(src: &str) -> (Vec<Lexeme>, String) {
    let mut cleaned = src.as_bytes().to_vec();
    let chars: Vec<(usize, char)> = src.char_indices().collect();
    let end_of = |i: usize| if i < chars.len() { chars[i].0 } else { src.len() };
    let mut out = Vec::new();
    let mut i = 0;
    while i < chars.len() {
        let (byte, c) = chars[i];
        if c == '/' && i + 1 < chars.len() && chars[i + 1].1 == '/' {
            let mut j = i;
            while j < chars.len() && chars[j].1 != '\n' {
                j += 1;
            }
            blank(&mut cleaned, byte, end_of(j));
            i = j;
        } else if c == '"' {
            let mut j = i + 1;
            while j < chars.len() && chars[j].1 != '"' {
                j += 1;
            }
            let end = end_of(j + 1);
            blank(&mut cleaned, byte, end);
            out.push(Lexeme {
                text: src[end_of(i + 1)..end_of(j)].to_string(),
                byte: end_of(i + 1),
                is_name: false,
                is_literal: true,
            });
            i = j + 1;
        } else if c.is_alphanumeric() || c == '_' {
            let mut j = i;
            while j < chars.len() && (chars[j].1.is_alphanumeric() || chars[j].1 == '_') {
                j += 1;
            }
            out.push(Lexeme {
                text: src[byte..end_of(j)].to_string(),
                byte,
                is_name: !c.is_numeric(),
                is_literal: false,
            });
            i = j;
        } else {
            if !c.is_whitespace() && c != '\u{FEFF}' {
                out.push(Lexeme { text: c.to_string(), byte, is_name: false, is_literal: false });
            }
            i += 1;
        }
    }
    (out, String::from_utf8(cleaned).unwrap())
}

/// The query text that a literal holds, where it holds one.
fn query_of(literal: &Lexeme) -> Option<QueryText> {
    let lower = literal.text.trim_start().to_lowercase();
    if !lower.starts_with("выбрать") && !lower.starts_with("select") {
        return None;
    }
    let mut text = String::new();
    let mut spans = Vec::new();
    let mut at = literal.byte;
    for (n, line) in literal.text.split('\n').enumerate() {
        let mut piece = line;
        let mut start = at;
        if n > 0 {
            text.push('\n');
            let bar = line.find('|').map(|b| b + 1).unwrap_or(0);
            piece = &line[bar..];
            start = at + bar;
        }
        spans.push(TextSpan { text_start: text.len(), module_start: start });
        text.push_str(piece);
        at += line.len() + 1;
    }
    Some(QueryText { text, spans })
}

/// The number of arguments in the brackets that open at `open`.
fn arguments(l: &[Lexeme], open: usize) -> usize {
    if open + 1 < l.len() && l[open + 1].text == ")" && !l[open + 1].is_literal {
        return 0;
    }
    let mut depth = 0;
    let mut count = 1;
    for x in &l[open..] {
        if x.is_literal {
            continue;
        }
        match x.text.as_str() {
            "(" => depth += 1,
            ")" => {
                depth -= 1;
                if depth == 0 {
                    break;
                }
            }
            "," if depth == 1 => count += 1,
            _ => {}
        }
    }
    count
}

/// Reads a module: a reader that is enough for the modules of these tests.
fn parse_module(src: &str) -> ParsedModule {
    let (l, cleaned) = lexemes(src);
    let mut facts = AstFacts::new();
    let mut queries = Vec::new();
    let is = |i: usize, s: &str| i < l.len() && !l[i].is_literal && l[i].text == s;
    let low = |i: usize| if i < l.len() && l[i].is_name { l[i].text.to_lowercase() } else { String::new() };
    let keywords = [
        "если", "иначеесли", "пока", "и", "или", "не", "возврат", "новый", "процедура", "функция",
        "procedure", "function",
    ];
    let mut directive = String::new();
    let mut i = 0;
    while i < l.len() {
        let before_dot = i > 0 && is(i - 1, ".");
        let word = low(i);
        if l[i].is_literal {
            let added = (i > 0 && is(i - 1, "+")) || is(i + 1, "+");
            if !added {
                queries.extend(query_of(&l[i]));
            }
        } else if is(i, "&") {
            facts.has_directives = true;
            directive = low(i + 1);
            i += 1;
        } else if before_dot || !l[i].is_name {
        } else if ["процедура", "функция", "procedure", "function"].contains(&word.as_str()) {
            facts.declarations.push(low(i + 1));
            let mut params = Vec::new();
            let mut j = i + 2;
            while j < l.len() && !is(j, ")") {
                if l[j].is_name && low(j) != "знач" && (is(j + 1, ",") || is(j + 1, ")") || is(j + 1, "=")) {
                    params.push(low(j));
                }
                j += 1;
            }
            let mut k = j;
            while k < l.len()
                && !["конецпроцедуры", "конецфункции", "endprocedure", "endfunction"].contains(&low(k).as_str())
            {
                k += 1;
            }
            let byte_end = if k < l.len() { l[k].byte + l[k].text.len() } else { src.len() };
            facts.procs.push(ProcScope {
                byte_start: l[i].byte,
                byte_end,
                params,
                no_context: directive.ends_with("безконтекста") || directive.ends_with("nocontext"),
            });
            directive.clear();
            i = j;
        } else if word == "новый" {
            facts.news.push(NewFact { name: l[i + 1].text.clone(), byte: l[i + 1].byte });
            i += 1;
        } else if word == "перем" {
            facts.assigns.push(AssignFact { name: l[i + 1].text.clone(), byte: l[i + 1].byte, declaration: true });
            i += 1;
        } else if word == "для" {
            let at = if low(i + 1) == "каждого" { i + 2 } else { i + 1 };
            facts.loop_vars.push(low(at));
            i = at;
        } else if is(i + 1, ".") && i + 2 < l.len() && l[i + 2].is_name {
            facts.dots.push(DotFact {
                head: l[i].text.clone(),
                head_byte: l[i].byte,
                member: l[i + 2].text.clone(),
                member_byte: l[i + 2].byte,
                member_is_call: is(i + 3, "("),
            });
            if is(i + 3, ".") && i + 4 < l.len() && is(i + 5, "(") {
                facts.manager_calls.push(ManagerCallFact {
                    collection: l[i].text.clone(),
                    object: l[i + 2].text.clone(),
                    method: l[i + 4].text.clone(),
                    method_byte: l[i + 4].byte,
                });
            }
        } else if is(i + 1, "(") && !keywords.contains(&word.as_str()) {
            facts.calls.push(CallFact {
                name: l[i].text.clone(),
                byte: l[i].byte,
                arg_count: arguments(&l, i + 1),
            });
        } else if is(i + 1, "=") && (i == 0 || is(i - 1, ";") || is(i - 1, ")") || low(i - 1) == "цикл" || low(i - 1) == "экспорт") {
            facts.assigns.push(AssignFact { name: l[i].text.clone(), byte: l[i].byte, declaration: false });
        }
        i += 1;
    }
    let scanned_declarations = facts.declarations.clone();
    ParsedModule { source: src.to_string(), cleaned, facts, scanned_declarations, queries }
}

fn method(name_ru: &str, name_en: &str, required: usize, optional: usize) -> Method {
    let parameter = |n: usize, required: bool| Parameter {
        name: format!("П{n}"),
        value_type: String::new(),
        required,
        description: String::new(),
    };
    let mut parameters: Vec<Parameter> = (0..required).map(|n| parameter(n, true)).collect();
    parameters.extend((0..optional).map(|n| parameter(required + n, false)));
    Method {
        name_ru: name_ru.to_string(),
        name_en: name_en.to_string(),
        description: String::new(),
        return_type: String::new(),
        signatures: vec![Signature { name: "Основная".to_string(), description: String::new(), parameters }],
    }
}

fn type_of(name_ru: &str, values: &[&str]) -> Type {
    Type {
        name_ru: name_ru.to_string(),
        name_en: String::new(),
        description: String::new(),
        methods: Vec::new(),
        properties: Vec::new(),
        constructors: Vec::new(),
        enum_values: values
            .iter()
            .map(|v| EnumValue { name_ru: v.to_string(), name_en: String::new(), description: String::new() })
            .collect(),
    }
}

fn sample_index() -> PlatformIndex {
    let mut index = PlatformIndex::new();
    index.global_methods.push(method("СтрНайти", "StrFind", 2, 3));
    index.global_properties.push(Property {
        name_ru: "Документы".to_string(),
        name_en: "Documents".to_string(),
        description: String::new(),
        value_type: String::new(),
        readonly: true,
    });
    index.insert_type(type_of(
        "ТипРазмещенияТекстаТабличногоДокумента",
        &["Авто", "Забивать", "Обрезать", "Переносить"],
    ));
    let mut table = type_of("ТаблицаЗначений", &[]);
    table.methods.push(method("Добавить", "Add", 0, 0));
    table.properties.push(Property {
        name_ru: "Колонки".to_string(),
        name_en: "Columns".to_string(),
        description: String::new(),
        value_type: String::new(),
        readonly: true,
    });
    table.constructors.push(Signature { name: String::new(), description: String::new(), parameters: Vec::new() });
    index.insert_type(table);
    index
}

fn make_server() -> BslContextServer {
    BslContextServer::new(sample_index())
}

fn settings(kind: &str) -> SymbolSourceConfig {
    let mut c = SymbolSourceConfig::default();
    c.kind = kind.to_string();
    c
}

fn request(source: &str, repo: Option<&str>) -> ValidateModuleParams {
    ValidateModuleParams {
        source: source.to_string(),
        level: None,
        profile: None,
        path: None,
        form_attributes: None,
        repo: repo.map(|r| r.to_string()),
    }
}

/// Answers a request as far as no source has to be opened.
fn answer(srv: &BslContextServer, p: &ValidateModuleParams) -> Result<ModuleReply, String> {
    let plan = srv.plan_validation(p);
    let names: Names<NoSymbols> = match plan.target {
        Target::Refused(e) => return Err(e),
        Target::Platform => Names::NotAsked,
        Target::Configuration(i) => Names::Missing(missing_reason(srv.sources.get(i), srv.sources.alias(i))),
    };
    srv.validate_module(
        &parse_module(&p.source),
        plan.level,
        plan.profile,
        p.path.as_deref(),
        p.form_attributes.as_ref(),
        p.repo.as_deref().unwrap_or_default(),
        names,
    )
}

#[test]
fn get_enum_values_canonical_638() {
    let index = sample_index();
    match get_enum_values(&index, "ТипРазмещенияТекстаТабличногоДокумента") {
        OfType::Found(ty) => {
            for name in ["Авто", "Забивать", "Обрезать", "Переносить"] {
                assert!(ty.enum_values.iter().any(|v| v.name_ru == name), "должен присутствовать '{name}'");
            }
        }
        other => panic!("{other:?}"),
    }
}

#[test]
fn get_enum_values_rejects_non_enum_type() {
    let index = sample_index();
    assert!(matches!(get_enum_values(&index, "ТаблицаЗначений"), OfType::Nothing));
    assert!(matches!(get_enum_values(&index, "НетТакого"), OfType::NoType));
}

#[test]
fn validate_enum_canonical_638() {
    let v = validate_enum(&sample_index(), "ТипРазмещенияТекстаТабличногоДокумента", "Перенос");
    assert_eq!(v.valid, false);
    let similar: Vec<String> = v.similar.iter().map(|x| x.name.clone()).collect();
    assert!(similar.iter().any(|s| s == "Переносить"), "должна быть подсказка 'Переносить', получено {similar:?}");
    assert_eq!(v.all_valid_values.len(), 4);
    assert_eq!(v.message, "У перечисления 'ТипРазмещенияТекстаТабличногоДокумента' нет значения 'Перенос'.");
}

#[test]
fn validate_enum_accepts_valid_value() {
    let v = validate_enum(&sample_index(), "ТипРазмещенияТекстаТабличногоДокумента", "переносить");
    assert_eq!(v.valid, true);
    let v = validate_enum(&sample_index(), "ТаблицаЗначений", "Переносить");
    assert_eq!(v.valid, false);
    assert!(v.message.contains("ТаблицаЗначений"));
}

#[test]
fn validate_method_call_rejects_extra_argument() {
    let v = validate_method_call(&sample_index(), "СтрНайти", 6);
    assert_eq!(v.valid, false);
    assert_eq!(v.message, "Метод 'СтрНайти' не принимает столько аргументов: 6.");
}

#[test]
fn validate_method_call_accepts_normal_call() {
    assert_eq!(validate_method_call(&sample_index(), "СтрНайти", 2).valid, true);
    assert_eq!(validate_method_call(&sample_index(), "strfind", 5).valid, true);
    assert_eq!(validate_method_call(&sample_index(), "НетТакого", 1).valid, false);
}

#[test]
fn info_returns_type_card() {
    let index = sample_index();
    let ask = |name: &str, kind: Option<&str>| InfoParams { name: name.to_string(), kind: kind.map(|k| k.to_string()) };
    assert!(matches!(info(&index, &ask("ТаблицаЗначений", None)), Some(Definition::Type(_))));
    assert!(matches!(info(&index, &ask("StrFind", None)), Some(Definition::Method(_))));
    assert!(matches!(info(&index, &ask("documents", Some("PROPERTY"))), Some(Definition::Property(_))));
    assert!(info(&index, &ask("documents", Some("type"))).is_none());
    assert!(matches!(info(&index, &ask("documents", Some("прочее"))), Some(Definition::Property(_))));
}

#[test]
fn get_member_returns_method() {
    let index = sample_index();
    let ask = |owner: &str, member: &str| GetMemberParams { owner: owner.to_string(), member: member.to_string() };
    match get_member(&index, &ask("ТаблицаЗначений", "добавить")) {
        OfType::Found(Definition::Method(m)) => assert_eq!(m.name_ru, "Добавить"),
        other => panic!("{other:?}"),
    }
    assert!(matches!(get_member(&index, &ask("ТаблицаЗначений", "Columns")), OfType::Found(Definition::Property(_))));
    assert!(matches!(get_member(&index, &ask("ТаблицаЗначений", "Нет")), OfType::Nothing));
    assert!(matches!(get_member(&index, &ask("Нет", "Нет")), OfType::NoType));
}

#[test]
fn get_constructors_returns_real_signatures() {
    let index = sample_index();
    assert!(matches!(get_constructors(&index, "таблицазначений"), OfType::Found(_)));
    assert!(matches!(get_constructors(&index, "ТипРазмещенияТекстаТабличногоДокумента"), OfType::Nothing));
    assert!(matches!(get_constructors(&index, "Нет"), OfType::NoType));
}

#[test]
fn index_is_counted() {
    let stats = index_stats(&sample_index());
    assert_eq!(stats, IndexStats { global_methods: 1, global_properties: 1, types: 2, enum_types: 1 });
}

#[test]
fn tools_whitelist_hides_and_blocks_tools() {
    let srv = make_server();
    assert!(srv.is_tool_allowed("search"));
    assert!(srv.is_tool_allowed("validate_module"));

    let srv2 = make_server()
        .apply_tools_whitelist(&vec!["validate_module".to_string(), "нет_такого_инструмента".to_string()]);
    assert!(srv2.is_tool_allowed("validate_module"));
    assert!(!srv2.is_tool_allowed("search"));

    let srv = srv.apply_tools_whitelist(&vec!["validate_module".to_string()]);
    assert!(srv.is_tool_allowed("validate_module"));
    assert!(!srv.is_tool_allowed("search"));
    assert!(make_server().apply_tools_whitelist(&Vec::new()).is_tool_allowed("search"));
}

#[test]
fn rebuild_symbol_index_refuses_when_source_is_not_lite() {
    let mut cfg = settings("code_index_db");
    cfg.db_path = Some(r"C:\Repo1C\.code-index\index.db".to_string());
    let srv = make_server().with_sources(vec![("ut".to_string(), cfg, Ok(false))]);
    let message = srv.plan_rebuild(Some("ut")).unwrap_err();
    assert!(message.contains("пересобирать нечего"));
    assert_eq!(
        message,
        "symbol_source.kind = \"code_index_db\": источник читает чужой индекс, пересобирать нечего"
    );
}

#[test]
fn rebuild_needs_paths_and_a_dump_and_runs_once() {
    let srv = make_server().with_sources(vec![("ut".to_string(), settings("lite"), Ok(false))]);
    assert_eq!(
        srv.plan_rebuild(Some("ut")).unwrap_err(),
        "для пересборки нужны symbol_source.root и symbol_source.db_path в config.toml"
    );
    let mut cfg = settings("lite");
    cfg.root = Some("C:/RepoUT".to_string());
    cfg.db_path = Some("a.db".to_string());
    let srv = make_server().with_sources(vec![("ut".to_string(), cfg.clone(), Ok(false))]);
    let plan = srv.plan_rebuild(Some("ut")).unwrap();
    assert_eq!((plan.slot, plan.root.as_str(), plan.db_path.as_str()), (0, "C:/RepoUT", "a.db"));
    let mut slot = SourceSlot::new(cfg, Ok(true));
    assert_eq!(
        admit_rebuild(&mut slot, &plan.root, false).unwrap_err(),
        "symbol_source.root = C:/RepoUT — каталога нет"
    );
    assert!(admit_rebuild(&mut slot, &plan.root, true).is_ok());
    assert_eq!(admit_rebuild(&mut slot, &plan.root, true).unwrap_err(), "пересборка уже идёт");
    slot.finish_rebuild();
    assert!(admit_rebuild(&mut slot, &plan.root, true).is_ok());
}

#[test]
fn validate_module_rejects_unknown_repo() {
    let mut cfg = settings("lite");
    cfg.db_path = Some(r"C:\tools\bsl-context\ut_lite.db".to_string());
    let srv = make_server().with_sources(vec![("ut".to_string(), cfg, Ok(false))]);
    let message = answer(&srv, &request("Процедура Тест()\nКонецПроцедуры", Some("нет-такого"))).unwrap_err();
    assert!(message.contains("ut"), "в сообщении должны быть перечислены доступные алиасы: {message}");
    assert_eq!(message, "конфигурация \"нет-такого\" не настроена; доступны: ut");
}

#[test]
fn validate_module_requires_repo_when_sources_configured() {
    let mut cfg = settings("lite");
    cfg.db_path = Some(r"C:\tools\bsl-context\ut_lite.db".to_string());
    let srv = make_server().with_sources(vec![("ut".to_string(), cfg, Ok(false))]);
    let message = answer(&srv, &request("Процедура Тест()\nКонецПроцедуры", None)).unwrap_err();
    assert!(message.contains("repo обязателен"));
}

#[test]
fn validate_module_without_sources_checks_platform_only() {
    let reply = answer(
        &make_server(),
        &request(
            "Процедура Тест()\n\tА = ТипРазмещенияТекстаТабличногоДокумента.Перенос;\nКонецПроцедуры",
            None,
        ),
    )
    .unwrap();
    assert!(!reply.validation.valid);
    assert!(reply.validation.errors.iter().any(|e| e.kind == ExprErrorKind::UnknownEnumValue));
    assert!(reply.symbols_available && reply.degraded_reason.is_none());
}

#[test]
fn validate_module_degrades_when_lite_index_not_built() {
    let mut cfg = settings("lite");
    cfg.db_path = Some(r"C:\tools\bsl-context\ut_lite.db".to_string());
    let srv = make_server().with_sources(vec![("ut".to_string(), cfg, Ok(false))]);
    let reply = answer(&srv, &request("Процедура Тест()\nКонецПроцедуры", Some("ut"))).unwrap();
    assert_eq!(reply.symbols_available, false, "признак неполноты обязателен");
    assert!(reply.degraded_reason.unwrap().contains("rebuild_symbol_index"));
}

#[test]
fn validate_module_degraded_still_finds_invented_call() {
    let mut cfg = settings("code_index_mcp");
    cfg.url = Some("http://127.0.0.1:1/mcp".to_string());
    cfg.repo = Some("ut".to_string());
    let srv = make_server().with_sources(vec![(
        "ut".to_string(),
        cfg,
        Err("code-index mcp: initialize не прошёл".to_string()),
    )]);
    let mut p = request("Функция ПолучитьДанные() Экспорт\n\tВозврат СЕГОДНЯ();\nКонецФункции", Some("ut"));
    p.profile = Some("full".to_string());
    let reply = answer(&srv, &p).unwrap();
    assert_eq!(reply.symbols_available, false, "признак неполноты обязателен");
    let finding = reply
        .validation
        .errors
        .iter()
        .find(|e| e.message.contains("СЕГОДНЯ"))
        .unwrap_or_else(|| panic!("находка по СЕГОДНЯ должна остаться: {:?}", reply.validation));
    assert_eq!(finding.confidence, Confidence::Low, "уверенность должна быть понижена");
    assert!(reply.degraded_reason.unwrap().contains("initialize"));
}

#[test]
fn validate_module_degraded_has_no_high_undeclared() {
    let mut cfg = settings("code_index_mcp");
    cfg.url = Some("http://127.0.0.1:1/mcp".to_string());
    cfg.repo = Some("ut".to_string());
    let srv = make_server().with_sources(vec![("ut".to_string(), cfg, Err("нет связи".to_string()))]);
    let source = "Процедура Тест()\n\tЗаписьЖурналаРегистрацииСлужебная();\n\tПолучитьНастройкуПользователяСлужебная();\nКонецПроцедуры";
    let mut p = request(source, Some("ut"));
    p.profile = Some("full".to_string());
    let reply = answer(&srv, &p).unwrap();
    let high_undeclared = reply
        .validation
        .errors
        .iter()
        .filter(|e| e.kind == ExprErrorKind::UndeclaredMethod && e.confidence == Confidence::High)
        .count();
    assert_eq!(high_undeclared, 0, "лавина ложных High не должна вернуться: {:?}", reply.validation);
    assert_eq!(reply.validation.errors.len(), 2);
    p.profile = Some("strict".to_string());
    let strict = answer(&srv, &p).unwrap();
    assert!(strict.validation.valid && strict.validation.errors.is_empty());
    let sure = answer(&make_server(), &request(source, None)).unwrap();
    assert!(sure.validation.errors.iter().all(|e| e.confidence == Confidence::High));
    assert_eq!(sure.validation.errors.len(), 2);
}

#[test]
fn symbol_sources_status_reports_state_and_error() {
    let mut cfg = settings("code_index_mcp");
    cfg.url = Some("http://127.0.0.1:1/mcp".to_string());
    cfg.repo = Some("ut".to_string());
    let srv = make_server().with_sources(vec![("ut".to_string(), cfg, Err("initialize не прошёл".to_string()))]);
    let all = srv.symbol_sources_status();
    let src = &all[0];
    assert_eq!(src.repo, "ut");
    assert_eq!(src.kind, "code_index_mcp");
    assert_eq!(src.connected, false);
    assert_eq!(src.state, "not_connected");
    assert!(src.last_error.as_ref().unwrap().contains("initialize"));
}

#[test]
fn reconnect_symbol_source_reports_result() {
    let mut srv = make_server().with_sources(vec![("ut".to_string(), settings("code_index_mcp"), Err("нет связи".to_string()))]);
    let i = srv.resolve_slot(Some("ut")).unwrap();
    let mut slot = srv.sources.get(i).clone();
    slot.reconnected(Err("снова нет связи".to_string()));
    srv.sources.replace(i, slot);
    let status = srv.source_status(i);
    assert_eq!((status.repo.as_str(), status.state.as_str()), ("ut", "not_connected"));
    assert_eq!(status.last_error.as_deref(), Some("снова нет связи"));
    let mut slot = srv.sources.get(i).clone();
    slot.reconnected(Ok(true));
    srv.sources.replace(i, slot);
    assert_eq!(srv.source_status(i).state, "connected");
    assert!(srv.resolve_slot(Some("нет-такого")).is_err());
}

#[test]
fn validate_module_rejects_repo_when_no_sources_configured() {
    let message = answer(&make_server(), &request("Процедура Тест()\nКонецПроцедуры", Some("ut"))).unwrap_err();
    assert!(message.contains("не настроено ни одной конфигурации"), "сообщение: {message}");
}

#[test]
fn known_names_are_used() {
    let module = module_record(
        "base/CommonModules/Гло/Ext/Module.bsl",
        "",
        vec![MethodDecl {
            name: "ИмяИзГло".to_string(),
            is_function: false,
            is_export: true,
            directive: None,
            line_start: 1,
            params: String::new(),
        }],
        &vec!["Гло".to_string()],
    );
    let names = build(&vec![module], &Vec::new(), &Vec::new());
    let srv = make_server();
    let m = parse_module("Процедура Тест()\n\tИмяИзГло();\nКонецПроцедуры");
    let reply = srv.check_module(&m, 1, Profile::Full, None, None, Names::Known(&names));
    assert!(reply.validation.valid, "неожиданные находки: {:?}", reply.validation);
    let without: Names<NoSymbols> = Names::NotAsked;
    assert!(!srv.check_module(&m, 1, Profile::Full, None, None, without).validation.valid);
}

#[test]
fn configurations_are_kept_in_order_and_once() {
    let srv = make_server().with_sources(vec![
        ("ut".to_string(), settings("none"), Ok(false)),
        ("a".to_string(), settings("lite"), Ok(true)),
        ("ut".to_string(), settings("lite"), Err("ошибка".to_string())),
        ("b".to_string(), settings("none"), Ok(false)),
    ]);
    assert_eq!(srv.sources.len(), 3);
    assert_eq!(srv.sources.listed(), "a, b, ut");
    assert_eq!(srv.sources.get(2).config.kind, "lite");
    assert_eq!(srv.sources.get(2).last_error.as_deref(), Some("ошибка"));
    assert!(srv.sources.get(0).connected);
    assert_eq!(srv.sources.find("b"), Some(1));
    assert_eq!(srv.sources.find("c"), None);
    assert!(is_before("a", "ab") && is_before("ab", "b") && !is_before("b", "b") && is_before("z", "а"));
}

#[test]
fn levels_and_profiles_have_defaults() {
    let srv = BslContextServer::with_defaults(PlatformIndex::new(), 9, Profile::Strict);
    assert_eq!((srv.default_validation_level, srv.default_profile), (3, Profile::Strict));
    assert_eq!(BslContextServer::with_default_level(PlatformIndex::new(), 0).default_validation_level, 1);
    let mut p = request("", None);
    let plan = srv.plan_validation(&p);
    assert_eq!((plan.level, plan.profile), (3, Profile::Strict));
    p.level = Some(2);
    p.profile = Some("full".to_string());
    let plan = srv.plan_validation(&p);
    assert_eq!((plan.level, plan.profile), (2, Profile::Full));
}

#[test]
fn sources_are_connected_once_before_going_without() {
    assert_eq!(next_step(SourceState::Works, false), SourceStep::Use);
    assert_eq!(next_step(SourceState::Works, true), SourceStep::Use);
    assert_eq!(next_step(SourceState::Absent, false), SourceStep::Connect);
    assert_eq!(next_step(SourceState::Absent, true), SourceStep::GoWithout);
}

#[test]
fn a_broken_source_is_connected_once_before_a_refusal() {
    assert_eq!(next_step(SourceState::Broken, false), SourceStep::Connect);
    assert_eq!(next_step(SourceState::Broken, true), SourceStep::Refuse);
}

/// A source that works for a given number of questions about it.
struct Failing {
    left: std::cell::Cell<usize>,
}

impl SymbolSource for Failing {
    fn is_global_export(&self, _name_lower: &str) -> bool {
        false
    }

    fn method_exists(&self, _name_lower: &str) -> bool {
        false
    }

    fn owner_exports(&self, _path: &str) -> Option<Vec<String>> {
        None
    }

    fn object_exists(&self, _collection: &str, _name_lower: &str) -> Option<bool> {
        None
    }

    fn collection_names(&self, _collection: &str) -> Option<Vec<String>> {
        None
    }

    fn global_variables(&self) -> Option<Vec<String>> {
        None
    }

    fn object_schema(&self, _collection: &str, _name_lower: &str) -> Option<ObjectSchema> {
        None
    }

    fn is_healthy(&self) -> bool {
        let left = self.left.get();
        self.left.set(left.saturating_sub(1));
        left > 0
    }

    fn describe(&self) -> String {
        "code-index mcp (ut)".to_string()
    }
}

fn with_failing(works: usize) -> Result<ModuleReply, String> {
    let source = Failing { left: std::cell::Cell::new(works) };
    let m = parse_module("Процедура Тест()\nКонецПроцедуры");
    make_server().validate_module(&m, 1, Profile::Full, None, None, "ut", Names::Known(&source))
}

#[test]
fn a_source_that_does_not_work_is_refused() {
    let text = "источник имён конфигурации \"ut\" недоступен: code-index mcp (ut). Проверьте code-index.";
    assert_eq!(unavailable_reason("ut", "code-index mcp (ut)"), text);
    // Before the check, and behind it.
    assert_eq!(with_failing(0).unwrap_err(), text);
    assert_eq!(with_failing(1).unwrap_err(), text);
    let reply = with_failing(2).unwrap();
    assert!(reply.validation.valid && reply.symbols_available && reply.degraded_reason.is_none());
}

#[test]
fn a_reply_is_settled_by_the_state_of_the_source() {
    let reply = answer(&make_server(), &request("Процедура Тест()\nКонецПроцедуры", None)).unwrap();
    assert!(settle("ut", None, reply.clone(), None).unwrap().validation.valid);
    let refused = |before: Option<&str>, behind: Option<&str>| settle("ut", before, reply.clone(), behind).unwrap_err();
    assert_eq!(refused(None, Some("база")), unavailable_reason("ut", "база"));
    assert_eq!(refused(Some("сеть"), None), unavailable_reason("ut", "сеть"));
    assert_eq!(refused(Some("сеть"), Some("база")), unavailable_reason("ut", "сеть"));
}

#[test]
fn an_index_always_works() {
    let names = build(&Vec::new(), &Vec::new(), &Vec::new());
    assert!(names.is_healthy());
    assert_eq!(names.describe(), "lite-index");
    assert_eq!(NoSymbols {}.describe(), "none");
    let m = parse_module("Процедура Тест()\nКонецПроцедуры");
    let reply = make_server().validate_module(&m, 1, Profile::Full, None, None, "ut", Names::Known(&names));
    assert!(reply.unwrap().symbols_available);
}

#[test]
fn work_that_breaks_off_ends_the_making_of_an_index() {
    let crash = || Outcome::Crash { error: "задача сборки индекса упала".to_string() };
    let mut r = Rebuild::new(true);
    r.advance(Outcome::Success);
    r.advance(crash());
    assert_eq!((r.stage, r.connected), (Stage::Done, true));
    assert_eq!(r.error.as_deref(), Some("задача сборки индекса упала"));
    let mut r = Rebuild::new(true);
    r.advance(Outcome::Success);
    r.advance(Outcome::Success);
    r.advance(crash());
    assert_eq!((r.stage, r.connected), (Stage::Done, false));
}

#[test]
fn settings_are_checked() {
    let fault = |c: &SymbolSourceConfig| c.validate().map_err(|e| e.message());
    assert!(fault(&settings("none")).is_ok());
    assert_eq!(
        fault(&settings("lite")).unwrap_err(),
        "symbol_source.kind = \"lite\" требует symbol_source.db_path"
    );
    assert_eq!(
        fault(&settings("code_index_db")).unwrap_err(),
        "symbol_source.kind = \"code_index_db\" требует symbol_source.db_path"
    );
    let mut c = settings("code_index_mcp");
    assert_eq!(fault(&c).unwrap_err(), "symbol_source.kind = \"code_index_mcp\" требует symbol_source.url");
    c.url = Some("http://127.0.0.1:8011/mcp".to_string());
    assert_eq!(fault(&c).unwrap_err(), "symbol_source.kind = \"code_index_mcp\" требует symbol_source.repo");
    c.repo = Some("ut-test".to_string());
    assert!(fault(&c).is_ok());
    assert!(matches!(c.plan(false), SourcePlan::CodeIndexMcp { timeout_ms: 5000, .. }));
    assert_eq!(
        fault(&settings("иное")).unwrap_err(),
        "symbol_source.kind = \"иное\" неизвестен. Допустимые значения: none, lite, code_index_db, code_index_mcp"
    );
    let mut c = settings("lite");
    c.db_path = Some("a.db".to_string());
    assert!(matches!(c.plan(false), SourcePlan::NotBuilt));
    assert!(matches!(c.plan(true), SourcePlan::Lite { .. }));
    assert!(matches!(settings("none").plan(true), SourcePlan::Nothing));
    assert!(matches!(settings("lite").plan(true), SourcePlan::Broken));
}

#[test]
fn settings_have_defaults_and_levels_are_brought_within_range() {
    let mut c = Config::default();
    assert_eq!((c.host.as_str(), c.port, c.default_validation_level), ("127.0.0.1", 8007, 1));
    assert_eq!(c.allowed_hosts, vec!["localhost".to_string(), "127.0.0.1".to_string(), "::1".to_string()]);
    assert!(c.tools.enabled.is_empty() && c.platform_path.is_none());
    c.default_validation_level = 5;
    assert_eq!(c.clone().checked().unwrap().default_validation_level, 3);
    c.symbol_source.kind = "lite".to_string();
    assert!(matches!(c.checked(), Err(ConfigError::NoDbPath(_))));
}

#[test]
fn own_pid_in_file_is_stale() {
    assert_eq!(recorded_pid(" 1\n"), Some(1));
    let lock = PidLock::acquire("logs/bsl-context-rs.pid", Some("1"), 1, Some("bsl-context-rs.exe"));
    assert!(lock.is_ok(), "свой же PID должен считаться протухшим");
    assert_eq!(lock.unwrap().content, "1");
}

#[test]
fn dead_pid_is_stale() {
    assert!(PidLock::acquire("p", Some("4194303"), 7, None).is_ok());
    assert!(PidLock::acquire("p", Some("4194303"), 7, Some("explorer.exe")).is_ok());
    assert!(PidLock::acquire("p", None, 7, None).is_ok());
}

#[test]
fn running_server_keeps_the_lock() {
    let message = PidLock::acquire("p", Some("4194303"), 7, Some("BSL-Context-RS.exe")).unwrap_err();
    assert!(message.starts_with("Сервис bsl-context-rs уже запущен (PID 4194303). PID-файл: p."));
    assert!(is_our_process("bsl-context-rs") && !is_our_process("bsl-context"));
    for (text, pid) in [("+5", Some(5)), ("4294967295", Some(4294967295)), ("4294967296", None), ("", None), ("+", None), ("-1", None), ("1a", None)] {
        assert_eq!(recorded_pid(text), pid, "{text}");
    }
}

fn failure(error: &str, old_exists: bool) -> Outcome {
    Outcome::Failure { error: error.to_string(), old_exists }
}

#[test]
fn rebuild_goes_through_its_stages() {
    let mut r = Rebuild::new(true);
    for (stage, connected) in [(Stage::Folder, true), (Stage::Build, true), (Stage::Swap, false)] {
        assert_eq!((r.stage, r.connected), (stage, connected));
        r.advance(Outcome::Success);
    }
    assert_eq!((r.stage, r.connected), (Stage::Done, true));
    assert!(r.error.is_none());
}

#[test]
fn failed_build_keeps_the_old_index() {
    let mut r = Rebuild::new(true);
    r.advance(Outcome::Success);
    r.advance(failure("сбой", true));
    assert_eq!((r.stage, r.connected), (Stage::Clean, true));
    r.advance(Outcome::Success);
    assert_eq!(r.stage, Stage::Done);
    assert_eq!(r.error.as_deref(), Some("сбой"));
    let mut r = Rebuild::new(false);
    r.advance(failure("каталог", false));
    assert_eq!((r.stage, r.connected, r.error.as_deref()), (Stage::Done, false, Some("каталог")));
}

#[test]
fn failed_swap_opens_the_old_index_again() {
    let mut r = Rebuild::new(true);
    r.advance(Outcome::Success);
    r.advance(Outcome::Success);
    r.advance(failure("занято", true));
    assert_eq!((r.stage, r.connected), (Stage::Reopen, false));
    r.advance(Outcome::Success);
    assert_eq!((r.stage, r.connected), (Stage::Clean, true));
    r.advance(failure("файл не удалён", true));
    assert_eq!((r.stage, r.connected, r.error.as_deref()), (Stage::Done, true, Some("занято")));
    let mut r = Rebuild::new(true);
    r.advance(Outcome::Success);
    r.advance(Outcome::Success);
    r.advance(failure("занято", false));
    assert_eq!((r.stage, r.connected), (Stage::Clean, false));
}
