//! Scopes of variables and chains of calls.
use bsl_context::platform::{Method, PlatformIndex, Property, Type};
use bsl_context::scope::{extract_scope_map, extract_type_annotations, parse_chain, primary_type, resolve_chain_type, ScopeMap};

fn assert_var(map: &ScopeMap, byte_idx: usize, var: &str, expected_type: &str) {
    let t = map
        .type_of_var(byte_idx, var)
        .unwrap_or_else(|| panic!("var '{var}' not found in scope"));
    assert_eq!(t, expected_type);
}

fn method(name: &str, return_type: &str) -> Method {
    Method {
        name_ru: name.to_string(),
        name_en: String::new(),
        description: String::new(),
        return_type: return_type.to_string(),
        signatures: Vec::new(),
    }
}

fn property(name: &str, value_type: &str) -> Property {
    Property {
        name_ru: name.to_string(),
        name_en: String::new(),
        description: String::new(),
        value_type: value_type.to_string(),
        readonly: false,
    }
}

fn ty(name: &str, methods: Vec<Method>, properties: Vec<Property>) -> Type {
    Type {
        name_ru: name.to_string(),
        name_en: String::new(),
        description: String::new(),
        methods,
        properties,
        constructors: Vec::new(),
        enum_values: Vec::new(),
    }
}

fn mock_index() -> PlatformIndex {
    let mut idx = PlatformIndex::new();
    idx.insert_type(ty(
        "Запрос",
        vec![method("Выполнить", "РезультатЗапроса, Неопределено")],
        vec![property("Текст", "Строка")],
    ));
    idx.insert_type(ty(
        "РезультатЗапроса",
        vec![method("Выбрать", "ВыборкаИзРезультатаЗапроса")],
        vec![],
    ));
    idx.insert_type(ty(
        "ВыборкаИзРезультатаЗапроса",
        vec![method("Следующий", "Булево")],
        vec![],
    ));
    idx.insert_type(ty("Строка", vec![], vec![]));
    idx.insert_type(ty("Булево", vec![], vec![]));
    idx.global_methods
        .push(method("ПолучитьОбщийМакет", "ТабличныйДокумент"));
    idx.insert_type(ty("ТабличныйДокумент", vec![], vec![]));
    idx
}

#[test]
fn extract_annotations_finds_type_directive() {
    let src = "// @type ТаблицаЗначений\nХ = СоздатьТЗ();\n";
    let annot = extract_type_annotations(src);
    assert_eq!(annot.first().map(|a| &a.1), Some(&"ТаблицаЗначений".to_string()));
}

#[test]
fn parse_chain_basic() {
    let segs = parse_chain("Запрос.Выполнить()").unwrap();
    assert_eq!(segs.len(), 2);
    assert_eq!(segs[0].name, "Запрос");
    assert!(!segs[0].is_call);
    assert_eq!(segs[1].name, "Выполнить");
    assert!(segs[1].is_call);
}

#[test]
fn parse_chain_long() {
    let segs = parse_chain("Запрос.Выполнить().Выбрать()").unwrap();
    assert_eq!(segs.len(), 3);
    assert_eq!(segs[2].name, "Выбрать");
}

#[test]
fn parse_chain_rejects_complex_expr() {
    assert!(parse_chain("Х.Метод() + 1").is_none());
    assert!(parse_chain("Новый Запрос").is_none());
    assert!(parse_chain("123").is_none());
}

#[test]
fn parse_chain_skips_call_args() {
    let segs = parse_chain("Спр.НайтиПоКоду(А.Б(\"x\"))").unwrap();
    assert_eq!(segs.len(), 2);
    assert_eq!(segs[1].name, "НайтиПоКоду");
    assert!(segs[1].is_call);
}

#[test]
fn resolve_chain_method_return_type() {
    let idx = mock_index();
    let vars: Vec<(String, String)> = Vec::new();
    let segs = parse_chain("Запрос.Выполнить()").unwrap();
    assert_eq!(
        resolve_chain_type(&idx, &vars, &segs),
        Some("РезультатЗапроса".to_string())
    );
}

#[test]
fn resolve_chain_multi_level() {
    let idx = mock_index();
    let vars: Vec<(String, String)> = Vec::new();
    let segs = parse_chain("Запрос.Выполнить().Выбрать()").unwrap();
    assert_eq!(
        resolve_chain_type(&idx, &vars, &segs),
        Some("ВыборкаИзРезультатаЗапроса".to_string())
    );
}

#[test]
fn resolve_chain_via_var_and_property() {
    let idx = mock_index();
    let mut vars: Vec<(String, String)> = Vec::new();
    vars.push(("рез".to_string(), "РезультатЗапроса".to_string()));
    let segs = parse_chain("Рез.Выбрать()").unwrap();
    assert_eq!(
        resolve_chain_type(&idx, &vars, &segs),
        Some("ВыборкаИзРезультатаЗапроса".to_string())
    );
    let segs2 = parse_chain("Запрос.Текст").unwrap();
    assert_eq!(
        resolve_chain_type(&idx, &vars, &segs2),
        Some("Строка".to_string())
    );
}

#[test]
fn primary_type_picks_first_known_component() {
    let idx = mock_index();
    assert_eq!(
        primary_type(&idx, "РезультатЗапроса, Неопределено"),
        Some("РезультатЗапроса".to_string())
    );
    assert_eq!(primary_type(&idx, "Неопределено"), None);
    assert_eq!(primary_type(&idx, "НетТакогоТипа"), None);
    assert_eq!(
        primary_type(&idx, "Произвольный, Строка"),
        Some("Строка".to_string())
    );
    assert_eq!(
        primary_type(&idx, "`РезультатЗапроса`, `Неопределено`"),
        Some("РезультатЗапроса".to_string())
    );
}

#[test]
fn resolve_chain_global_method() {
    let idx = mock_index();
    let vars: Vec<(String, String)> = Vec::new();
    let segs = parse_chain("ПолучитьОбщийМакет()").unwrap();
    assert_eq!(
        resolve_chain_type(&idx, &vars, &segs),
        Some("ТабличныйДокумент".to_string())
    );
}

#[test]
fn resolve_chain_unknown_member_returns_none() {
    let idx = mock_index();
    let vars: Vec<(String, String)> = Vec::new();
    let segs = parse_chain("Запрос.НетТакогоМетода()").unwrap();
    assert_eq!(resolve_chain_type(&idx, &vars, &segs), None);
}

#[test]
fn build_scope_infers_chain_at_level3() {
    let idx = mock_index();
    let src = "Запрос = Новый Запрос;\nРез = Запрос.Выполнить();\nВыб = Рез.Выбрать();\n";
    let annotations: Vec<(usize, String)> = Vec::new();
    let map3 = extract_scope_map(&idx, src, &annotations, 3);
    assert_var(&map3, src.len() - 1, "запрос", "Запрос");
    assert_var(&map3, src.len() - 1, "рез", "РезультатЗапроса");
    assert_var(&map3, src.len() - 1, "выб", "ВыборкаИзРезультатаЗапроса");
}

#[test]
fn build_scope_level2_no_returntype() {
    let idx = mock_index();
    let src = "Запрос = Новый Запрос;\nРез = Запрос.Выполнить();\n";
    let annotations: Vec<(usize, String)> = Vec::new();
    let map2 = extract_scope_map(&idx, src, &annotations, 2);
    assert_var(&map2, src.len() - 1, "запрос", "Запрос");
    assert!(map2.type_of_var(src.len() - 1, "рез").is_none());
}
