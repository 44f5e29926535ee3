//! Rules for queries.
use bsl_context::facts::{
    AssignFact, AstFacts, CallFact, DotFact, ManagerCallFact, NewFact, ParsedModule, ProcScope, QueryText, TextSpan,
};
use bsl_context::platform::PlatformIndex;
use bsl_context::{
    validate_module_with_profile, validate_module_with_symbols, ExprErrorKind, ExpressionValidation, ObjectField,
    ObjectSchema, Profile, SymbolSource,
};

/// A lexeme of a module: its text and the byte at which it stands.
#[derive(Clone, Debug)]
struct Lexeme {
    text: String,
    byte: usize,
    is_name: bool,
    is_literal: bool,
}

fn blank(bytes: &mut [u8], from: usize, to: usize) {
    for b in &mut bytes[from..to] {
        if *b != b'\n' {
            *b = b' ';
        }
    }
}

/// Splits a module into lexemes, and blanks its strings and comments.
fn lexemes(src: &str) -> (Vec<Lexeme>, String) {
    let mut cleaned = src.as_bytes().to_vec();
    let chars: Vec<(usize, char)> = src.char_indices().collect();
    let end_of = |i: usize| if i < chars.len() { chars[i].0 } else { src.len() };
    let mut out = Vec::new();
    let mut i = 0;
    while i < chars.len() {
        let (byte, c) = chars[i];
        if c == '/' && i + 1 < chars.len() && chars[i + 1].1 == '/' {
            let mut j = i;
            while j < chars.len() && chars[j].1 != '\n' {
                j += 1;
            }
            blank(&mut cleaned, byte, end_of(j));
            i = j;
        } else if c == '"' {
            let mut j = i + 1;
            while j < chars.len() && chars[j].1 != '"' {
                j += 1;
            }
            let end = end_of(j + 1);
            blank(&mut cleaned, byte, end);
            out.push(Lexeme {
                text: src[end_of(i + 1)..end_of(j)].to_string(),
                byte: end_of(i + 1),
                is_name: false,
                is_literal: true,
            });
            i = j + 1;
        } else if c.is_alphanumeric() || c == '_' {
            let mut j = i;
            while j < chars.len() && (chars[j].1.is_alphanumeric() || chars[j].1 == '_') {
                j += 1;
            }
            out.push(Lexeme {
                text: src[byte..end_of(j)].to_string(),
                byte,
                is_name: !c.is_numeric(),
                is_literal: false,
            });
            i = j;
        } else {
            if !c.is_whitespace() && c != '\u{FEFF}' {
                out.push(Lexeme { text: c.to_string(), byte, is_name: false, is_literal: false });
            }
            i += 1;
        }
    }
    (out, String::from_utf8(cleaned).unwrap())
}

/// The query text that a literal holds, where it holds one.
fn query_of(literal: &Lexeme) -> Option<QueryText> {
    let lower = literal.text.trim_start().to_lowercase();
    if !lower.starts_with("выбрать") && !lower.starts_with("select") {
        return None;
    }
    let mut text = String::new();
    let mut spans = Vec::new();
    let mut at = literal.byte;
    for (n, line) in literal.text.split('\n').enumerate() {
        let mut piece = line;
        let mut start = at;
        if n > 0 {
            text.push('\n');
            let bar = line.find('|').map(|b| b + 1).unwrap_or(0);
            piece = &line[bar..];
            start = at + bar;
        }
        spans.push(TextSpan { text_start: text.len(), module_start: start });
        text.push_str(piece);
        at += line.len() + 1;
    }
    Some(QueryText { text, spans })
}

/// The number of arguments in the brackets that open at `open`.
fn arguments(l: &[Lexeme], open: usize) -> usize {
    if open + 1 < l.len() && l[open + 1].text == ")" && !l[open + 1].is_literal {
        return 0;
    }
    let mut depth = 0;
    let mut count = 1;
    for x in &l[open..] {
        if x.is_literal {
            continue;
        }
        match x.text.as_str() {
            "(" => depth += 1,
            ")" => {
                depth -= 1;
                if depth == 0 {
                    break;
                }
            }
            "," if depth == 1 => count += 1,
            _ => {}
        }
    }
    count
}

/// Reads a module: a reader that is enough for the modules of these tests.
fn parse_module(src: &str) -> ParsedModule {
    let (l, cleaned) = lexemes(src);
    let mut facts = AstFacts::new();
    let mut queries = Vec::new();
    let is = |i: usize, s: &str| i < l.len() && !l[i].is_literal && l[i].text == s;
    let low = |i: usize| if i < l.len() && l[i].is_name { l[i].text.to_lowercase() } else { String::new() };
    let keywords = [
        "если", "иначеесли", "пока", "и", "или", "не", "возврат", "новый", "процедура", "функция",
        "procedure", "function",
    ];
    let mut directive = String::new();
    let mut i = 0;
    while i < l.len() {
        let before_dot = i > 0 && is(i - 1, ".");
        let word = low(i);
        if l[i].is_literal {
            let added = (i > 0 && is(i - 1, "+")) || is(i + 1, "+");
            if !added {
                queries.extend(query_of(&l[i]));
            }
        } else if is(i, "&") {
            facts.has_directives = true;
            directive = low(i + 1);
            i += 1;
        } else if before_dot || !l[i].is_name {
        } else if ["процедура", "функция", "procedure", "function"].contains(&word.as_str()) {
            facts.declarations.push(low(i + 1));
            let mut params = Vec::new();
            let mut j = i + 2;
            while j < l.len() && !is(j, ")") {
                if l[j].is_name && low(j) != "знач" && (is(j + 1, ",") || is(j + 1, ")") || is(j + 1, "=")) {
                    params.push(low(j));
                }
                j += 1;
            }
            let mut k = j;
            while k < l.len()
                && !["конецпроцедуры", "конецфункции", "endprocedure", "endfunction"].contains(&low(k).as_str())
            {
                k += 1;
            }
            let byte_end = if k < l.len() { l[k].byte + l[k].text.len() } else { src.len() };
            facts.procs.push(ProcScope {
                byte_start: l[i].byte,
                byte_end,
                params,
                no_context: directive.ends_with("безконтекста") || directive.ends_with("nocontext"),
            });
            directive.clear();
            i = j;
        } else if word == "новый" {
            facts.news.push(NewFact { name: l[i + 1].text.clone(), byte: l[i + 1].byte });
            i += 1;
        } else if word == "перем" {
            facts.assigns.push(AssignFact { name: l[i + 1].text.clone(), byte: l[i + 1].byte, declaration: true });
            i += 1;
        } else if word == "для" {
            let at = if low(i + 1) == "каждого" { i + 2 } else { i + 1 };
            facts.loop_vars.push(low(at));
            i = at;
        } else if is(i + 1, ".") && i + 2 < l.len() && l[i + 2].is_name {
            facts.dots.push(DotFact {
                head: l[i].text.clone(),
                head_byte: l[i].byte,
                member: l[i + 2].text.clone(),
                member_byte: l[i + 2].byte,
                member_is_call: is(i + 3, "("),
            });
            if is(i + 3, ".") && i + 4 < l.len() && is(i + 5, "(") {
                facts.manager_calls.push(ManagerCallFact {
                    collection: l[i].text.clone(),
                    object: l[i + 2].text.clone(),
                    method: l[i + 4].text.clone(),
                    method_byte: l[i + 4].byte,
                });
            }
        } else if is(i + 1, "(") && !keywords.contains(&word.as_str()) {
            facts.calls.push(CallFact {
                name: l[i].text.clone(),
                byte: l[i].byte,
                arg_count: arguments(&l, i + 1),
            });
        } else if is(i + 1, "=") && (i == 0 || is(i - 1, ";") || is(i - 1, ")") || low(i - 1) == "цикл" || low(i - 1) == "экспорт") {
            facts.assigns.push(AssignFact { name: l[i].text.clone(), byte: l[i].byte, declaration: false });
        }
        i += 1;
    }
    let scanned_declarations = facts.declarations.clone();
    ParsedModule { source: src.to_string(), cleaned, facts, scanned_declarations, queries }
}

fn check_with_symbols(
    index: &PlatformIndex,
    src: &str,
    level: u8,
    profile: Profile,
    path: Option<&str>,
    attributes: Option<&Vec<String>>,
    symbols: Option<&StubSource>,
) -> ExpressionValidation {
    validate_module_with_symbols(index, &parse_module(src), level, profile, path, attributes, symbols)
}

fn check_with_profile(
    index: &PlatformIndex,
    src: &str,
    path: Option<&str>,
    attributes: Option<&Vec<String>>,
    level: u8,
    profile: Profile,
) -> ExpressionValidation {
    validate_module_with_profile(index, &parse_module(src), path, attributes, level, profile)
}

struct StubSource {
    silent: bool,
}

impl StubSource {
    fn new() -> Self {
        Self { silent: false }
    }

    fn silent() -> Self {
        Self { silent: true }
    }
}

impl SymbolSource for StubSource {
    fn describe(&self) -> String {
        "stub".to_string()
    }

    fn method_exists(&self, _name_lower: &str) -> bool {
        true
    }

    fn object_exists(&self, _collection: &str, _name_lower: &str) -> Option<bool> {
        Some(true)
    }

    fn global_variables(&self) -> Option<Vec<String>> {
        Some(Vec::new())
    }

    fn object_schema(&self, collection: &str, name_lower: &str) -> Option<ObjectSchema> {
        if self.silent {
            return None;
        }
        let field = |name: &str, indexed: bool| ObjectField {
            name: name.to_string(),
            indexing: if indexed { Some("Index".to_string()) } else { None },
        };
        match (collection, name_lower) {
            ("AccumulationRegisters", "товарынаскладах") => Some(ObjectSchema {
                attributes: vec![field("Сторно", false)],
                dimensions: vec![field("Номенклатура", false), field("Склад", false)],
                resources: vec![field("ВНаличии", false)],
                register_type: Some("Balance".to_string()),
                ..Default::default()
            }),
            ("AccumulationRegisters", "продажи") => Some(ObjectSchema {
                dimensions: vec![field("Номенклатура", false)],
                register_type: Some("Turnovers".to_string()),
                ..Default::default()
            }),
            ("Catalogs", "товары") => Some(ObjectSchema {
                attributes: vec![field("Сделка", true), field("Комментарий", false)],
                ..Default::default()
            }),
            _ => None,
        }
    }

    fn is_global_export(&self, _name_lower: &str) -> bool {
        false
    }

    fn owner_exports(&self, _path: &str) -> Option<Vec<String>> {
        None
    }

    fn collection_names(&self, _collection: &str) -> Option<Vec<String>> {
        None
    }
}

fn kinds_with(src: &str, source: &StubSource) -> Vec<ExprErrorKind> {
    let index = PlatformIndex::new();
    check_with_symbols(&index, src, 1, Profile::Full, None, None, Some(source))
        .errors
        .into_iter()
        .map(|e| e.kind)
        .collect()
}

fn has_with(src: &str, source: &StubSource, kind: ExprErrorKind) -> bool {
    kinds_with(src, source).contains(&kind)
}

fn kinds(src: &str) -> Vec<ExprErrorKind> {
    let index = PlatformIndex::new();
    check_with_profile(&index, src, None, None, 1, Profile::Full)
        .errors
        .into_iter()
        .map(|e| e.kind)
        .collect()
}

fn has(src: &str, kind: ExprErrorKind) -> bool {
    kinds(src).contains(&kind)
}

fn module_with(query: &str) -> String {
    format!("Процедура Выполнить()\n\tЗапрос = Новый Запрос;\n\tЗапрос.Текст = \"{query}\";\nКонецПроцедуры\n")
}

#[test]
fn temp_table_joined_without_index_is_reported() {
    let src = module_with(
        "ВЫБРАТЬ Т.Ссылка КАК Ссылка ПОМЕСТИТЬ ВТТовары ИЗ Справочник.Товары КАК Т \
         ;ВЫБРАТЬ 1 ИЗ Справочник.Цены КАК Ц \
         ЛЕВОЕ СОЕДИНЕНИЕ ВТТовары КАК В ПО В.Ссылка = Ц.Товар",
    );
    assert!(has(&src, ExprErrorKind::TempTableWithoutIndex), "{:?}", kinds(&src));
}

#[test]
fn indexed_temp_table_is_silent() {
    let src = module_with(
        "ВЫБРАТЬ Т.Ссылка КАК Ссылка ПОМЕСТИТЬ ВТТовары ИЗ Справочник.Товары КАК Т \
         ИНДЕКСИРОВАТЬ ПО Ссылка \
         ;ВЫБРАТЬ 1 ИЗ Справочник.Цены КАК Ц \
         ЛЕВОЕ СОЕДИНЕНИЕ ВТТовары КАК В ПО В.Ссылка = Ц.Товар",
    );
    assert!(!has(&src, ExprErrorKind::TempTableWithoutIndex), "{:?}", kinds(&src));
}

#[test]
fn temp_table_without_join_needs_no_index() {
    let src = module_with(
        "ВЫБРАТЬ Т.Ссылка КАК Ссылка ПОМЕСТИТЬ ВТТовары ИЗ Справочник.Товары КАК Т \
         ;ВЫБРАТЬ В.Ссылка ИЗ ВТТовары КАК В",
    );
    assert!(!has(&src, ExprErrorKind::TempTableWithoutIndex), "{:?}", kinds(&src));
}

#[test]
fn temp_table_created_in_another_query_text_is_silent() {
    let src = module_with("ВЫБРАТЬ Т.Ссылка ПОМЕСТИТЬ ВТТовары ИЗ Справочник.Товары КАК Т");
    assert!(!has(&src, ExprErrorKind::TempTableWithoutIndex), "{:?}", kinds(&src));
}

#[test]
fn index_by_sets_counts_as_index() {
    let src = module_with(
        "ВЫБРАТЬ Т.А КАК А, Т.Б КАК Б ПОМЕСТИТЬ ВТ ИЗ Справочник.Товары КАК Т \
         ИНДЕКСИРОВАТЬ ПО НАБОРАМ ((А, Б), (Б)) \
         ;ВЫБРАТЬ 1 ИЗ Справочник.Цены КАК Ц ЛЕВОЕ СОЕДИНЕНИЕ ВТ КАК В ПО В.А = Ц.Товар",
    );
    assert!(!has(&src, ExprErrorKind::TempTableWithoutIndex), "{:?}", kinds(&src));
}

#[test]
fn or_in_join_condition_is_reported() {
    let src = module_with(
        "ВЫБРАТЬ 1 ИЗ Справочник.Товары КАК Т \
         ЛЕВОЕ СОЕДИНЕНИЕ Справочник.Склады КАК С ПО Т.Склад = С.Ссылка ИЛИ Т.Склад ЕСТЬ NULL",
    );
    assert!(has(&src, ExprErrorKind::OrInJoinCondition), "{:?}", kinds(&src));
}

#[test]
fn or_inside_parentheses_is_not_reported() {
    let src = module_with(
        "ВЫБРАТЬ 1 ИЗ Справочник.Товары КАК Т \
         ВНУТРЕННЕЕ СОЕДИНЕНИЕ Справочник.Склады КАК С \
         ПО Т.Склад = С.Ссылка И (Т.Цена > 0 ИЛИ Т.Остаток > 0)",
    );
    assert!(!has(&src, ExprErrorKind::OrInJoinCondition), "{:?}", kinds(&src));
}

#[test]
fn or_in_where_is_not_a_join_finding() {
    let src = module_with(
        "ВЫБРАТЬ 1 ИЗ Справочник.Товары КАК Т ГДЕ Т.Цена > 0 ИЛИ Т.Цена ЕСТЬ NULL",
    );
    assert!(!has(&src, ExprErrorKind::OrInJoinCondition), "{:?}", kinds(&src));
}

#[test]
fn join_with_subquery_is_reported() {
    let src = module_with(
        "ВЫБРАТЬ 1 ИЗ Справочник.Товары КАК Т \
         ЛЕВОЕ СОЕДИНЕНИЕ (ВЫБРАТЬ Ц.Товар КАК Товар ИЗ Справочник.Цены КАК Ц) КАК П \
         ПО П.Товар = Т.Ссылка",
    );
    assert!(has(&src, ExprErrorKind::JoinWithSubquery), "{:?}", kinds(&src));
}

#[test]
fn subquery_in_where_is_not_a_join() {
    let src = module_with(
        "ВЫБРАТЬ 1 ИЗ Справочник.Товары КАК Т \
         ГДЕ Т.Ссылка В (ВЫБРАТЬ Ц.Товар ИЗ Справочник.Цены КАК Ц)",
    );
    assert!(!has(&src, ExprErrorKind::JoinWithSubquery), "{:?}", kinds(&src));
}

#[test]
fn module_without_queries_is_silent() {
    let src = "Процедура П()\n\tСообщить(\"ВЫБРАТЬ не запрос\");\nКонецПроцедуры\n";
    let found = kinds(src);
    assert!(
        !found.contains(&ExprErrorKind::OrInJoinCondition)
            && !found.contains(&ExprErrorKind::JoinWithSubquery)
            && !found.contains(&ExprErrorKind::TempTableWithoutIndex),
        "{found:?}"
    );
}

#[test]
fn unparsed_query_gives_no_findings() {
    let src = module_with("ВЫБРАТЬ 1 ИЗ Справочник.Товары КАК Т {ГДЕ (ЛОЖЬ) КАК Признак}");
    let found = kinds(&src);
    assert!(
        !found.contains(&ExprErrorKind::OrInJoinCondition)
            && !found.contains(&ExprErrorKind::JoinWithSubquery),
        "{found:?}"
    );
}

#[test]
fn dynamic_query_text_is_skipped() {
    let src = "Процедура П()\n\tЗапрос.Текст = \"ВЫБРАТЬ 1 ИЗ \" + ИмяТаблицы + \" КАК Т\";\nКонецПроцедуры\n";
    let found = kinds(src);
    assert!(!found.contains(&ExprErrorKind::TempTableWithoutIndex), "{found:?}");
}

#[test]
fn physical_balance_register_table_is_reported() {
    let src = module_with("ВЫБРАТЬ 1 ИЗ РегистрНакопления.ТоварыНаСкладах КАК Р");
    assert!(
        has_with(&src, &StubSource::new(), ExprErrorKind::PhysicalRegisterTable),
        "{:?}",
        kinds_with(&src, &StubSource::new())
    );
}

#[test]
fn movement_fields_make_physical_table_legitimate() {
    let src = module_with(
        "ВЫБРАТЬ РАЗЛИЧНЫЕ Движения.Регистратор КАК Регистратор \
         ИЗ РегистрНакопления.ТоварыНаСкладах КАК Движения",
    );
    assert!(
        !has_with(&src, &StubSource::new(), ExprErrorKind::PhysicalRegisterTable),
        "{:?}",
        kinds_with(&src, &StubSource::new())
    );
}

#[test]
fn virtual_table_filter_passed_as_parameter_is_silent() {
    let src = module_with(
        "ВЫБРАТЬ 1 ИЗ РегистрНакопления.ТоварыНаСкладах.Остатки(, &ОтборПоИзмерениям) КАК Т",
    );
    assert!(
        !has_with(&src, &StubSource::new(), ExprErrorKind::VirtualTableWithoutFilter),
        "{:?}",
        kinds_with(&src, &StubSource::new())
    );
}

#[test]
fn movement_fields_without_alias_also_count() {
    let src = module_with(
        "ВЫБРАТЬ Т.Номенклатура ИЗ РегистрНакопления.ТоварыНаСкладах КАК Т \
         ГДЕ Активность И Регистратор В (&Регистратор)",
    );
    assert!(
        !has_with(&src, &StubSource::new(), ExprErrorKind::PhysicalRegisterTable),
        "{:?}",
        kinds_with(&src, &StubSource::new())
    );
}

#[test]
fn register_attribute_makes_physical_table_legitimate() {
    let src = module_with(
        "ВЫБРАТЬ Т.Номенклатура, Т.Сторно ИЗ РегистрНакопления.ТоварыНаСкладах КАК Т",
    );
    assert!(
        !has_with(&src, &StubSource::new(), ExprErrorKind::PhysicalRegisterTable),
        "{:?}",
        kinds_with(&src, &StubSource::new())
    );
}

#[test]
fn physical_read_by_dimensions_only_is_still_reported() {
    let src = module_with(
        "ВЫБРАТЬ Т.Номенклатура, Т.ВНаличии ИЗ РегистрНакопления.ТоварыНаСкладах КАК Т \
         ГДЕ Т.Склад = &Склад",
    );
    assert!(
        has_with(&src, &StubSource::new(), ExprErrorKind::PhysicalRegisterTable),
        "{:?}",
        kinds_with(&src, &StubSource::new())
    );
}

#[test]
fn periodicity_argument_is_not_a_filter() {
    let src = module_with(
        "ВЫБРАТЬ 1 ИЗ РегистрНакопления.ТоварыНаСкладах.ОстаткиИОбороты(&Нач, , МЕСЯЦ, Движения, ) КАК Т",
    );
    assert!(
        has_with(&src, &StubSource::new(), ExprErrorKind::VirtualTableWithoutFilter),
        "отбор пуст, находка обязана быть: {:?}",
        kinds_with(&src, &StubSource::new())
    );
}

#[test]
fn balance_and_turnovers_with_filter_is_silent() {
    let src = module_with(
        "ВЫБРАТЬ 1 ИЗ РегистрНакопления.ТоварыНаСкладах.ОстаткиИОбороты(&Нач, &Кон, МЕСЯЦ, Движения, Склад = &Склад) КАК Т",
    );
    assert!(!has_with(&src, &StubSource::new(), ExprErrorKind::VirtualTableWithoutFilter));
}

#[test]
fn turnovers_register_has_no_balance_table() {
    let src = module_with("ВЫБРАТЬ 1 ИЗ РегистрНакопления.Продажи КАК Р");
    assert!(!has_with(&src, &StubSource::new(), ExprErrorKind::PhysicalRegisterTable));
}

#[test]
fn virtual_table_is_not_a_physical_read() {
    let src = module_with(
        "ВЫБРАТЬ 1 ИЗ РегистрНакопления.ТоварыНаСкладах.Остатки(&Дата, Склад = &Склад) КАК Ост",
    );
    assert!(!has_with(&src, &StubSource::new(), ExprErrorKind::PhysicalRegisterTable));
}

#[test]
fn silent_source_means_silence_not_findings() {
    let src = module_with("ВЫБРАТЬ 1 ИЗ РегистрНакопления.ТоварыНаСкладах КАК Р");
    assert!(!has_with(&src, &StubSource::silent(), ExprErrorKind::PhysicalRegisterTable));
}

#[test]
fn virtual_table_without_filter_is_reported() {
    let src = module_with("ВЫБРАТЬ 1 ИЗ РегистрНакопления.ТоварыНаСкладах.Остатки() КАК Ост");
    assert!(
        has_with(&src, &StubSource::new(), ExprErrorKind::VirtualTableWithoutFilter),
        "{:?}",
        kinds_with(&src, &StubSource::new())
    );
}

#[test]
fn virtual_table_with_dimension_filter_is_silent() {
    let src = module_with(
        "ВЫБРАТЬ 1 ИЗ РегистрНакопления.ТоварыНаСкладах.Остатки(&Дата, Склад = &Склад) КАК Ост",
    );
    assert!(!has_with(&src, &StubSource::new(), ExprErrorKind::VirtualTableWithoutFilter));
}

#[test]
fn join_on_unindexed_field_is_reported() {
    let src = module_with(
        "ВЫБРАТЬ 1 ИЗ Справочник.Товары КАК Т \
         ЛЕВОЕ СОЕДИНЕНИЕ Справочник.Товары КАК Д ПО Т.Комментарий = Д.Комментарий",
    );
    assert!(
        has_with(&src, &StubSource::new(), ExprErrorKind::JoinOnUnindexedField),
        "{:?}",
        kinds_with(&src, &StubSource::new())
    );
}

#[test]
fn unindexed_field_on_the_other_side_is_fine() {
    let src = module_with(
        "ВЫБРАТЬ 1 ИЗ Справочник.Товары КАК Т \
         ЛЕВОЕ СОЕДИНЕНИЕ Справочник.Товары КАК Д ПО Т.Комментарий = Д.Ссылка",
    );
    assert!(!has_with(&src, &StubSource::new(), ExprErrorKind::JoinOnUnindexedField));
}

#[test]
fn join_with_register_is_left_to_the_register_rule() {
    let src = module_with(
        "ВЫБРАТЬ 1 ИЗ Справочник.Товары КАК Т \
         ЛЕВОЕ СОЕДИНЕНИЕ РегистрНакопления.ТоварыНаСкладах.Остатки(&Дата, Склад = &Склад) КАК О \
         ПО О.Номенклатура = Т.Сделка",
    );
    assert!(!has_with(&src, &StubSource::new(), ExprErrorKind::JoinOnUnindexedField));
}

#[test]
fn join_on_indexed_field_is_silent() {
    let src = module_with(
        "ВЫБРАТЬ 1 ИЗ Справочник.Товары КАК Т \
         ЛЕВОЕ СОЕДИНЕНИЕ Справочник.Товары КАК Д ПО Т.Сделка = Д.Сделка",
    );
    assert!(!has_with(&src, &StubSource::new(), ExprErrorKind::JoinOnUnindexedField));
}

#[test]
fn join_on_standard_field_is_silent() {
    let src = module_with(
        "ВЫБРАТЬ 1 ИЗ Справочник.Товары КАК Т \
         ЛЕВОЕ СОЕДИНЕНИЕ Справочник.Товары КАК Д ПО Т.Ссылка = Д.Ссылка",
    );
    assert!(!has_with(&src, &StubSource::new(), ExprErrorKind::JoinOnUnindexedField));
}

#[test]
fn join_on_unknown_field_is_silent() {
    let src = module_with(
        "ВЫБРАТЬ 1 ИЗ Справочник.Товары КАК Т \
         ЛЕВОЕ СОЕДИНЕНИЕ Справочник.Товары КАК Д ПО Т.НеизвестноеПоле = Д.НеизвестноеПоле",
    );
    assert!(!has_with(&src, &StubSource::new(), ExprErrorKind::JoinOnUnindexedField));
}

#[test]
fn rules_without_metadata_still_work_without_source() {
    let src = module_with(
        "ВЫБРАТЬ 1 ИЗ Справочник.Товары КАК Т \
         ЛЕВОЕ СОЕДИНЕНИЕ Справочник.Склады КАК С ПО Т.Склад = С.Ссылка ИЛИ Т.Склад ЕСТЬ NULL",
    );
    assert!(has(&src, ExprErrorKind::OrInJoinCondition));
}

#[test]
fn finding_points_at_the_line_inside_module() {
    let src = "Процедура П()\n\tЗапрос.Текст = \"ВЫБРАТЬ 1 ИЗ Справочник.Товары КАК Т\n\t|ЛЕВОЕ СОЕДИНЕНИЕ Справочник.Склады КАК С\n\t|ПО Т.Склад = С.Ссылка ИЛИ Т.Склад ЕСТЬ NULL\";\nКонецПроцедуры\n";
    let index = PlatformIndex::new();
    let result = check_with_profile(&index, src, None, None, 1, Profile::Full);
    let finding = result
        .errors
        .iter()
        .find(|e| e.kind == ExprErrorKind::OrInJoinCondition)
        .expect("находка потеряна");
    assert_eq!(finding.line, 3, "находка встала не на ту строку: {finding:?}");
}
