//! The index of a configuration.
use bsl_context::lite_index::dump::{index_of_files, read_file, split_name, DumpFile, ModuleText, Reading};
use bsl_context::lite_index::layout::{
    is_application_module_file, is_description_extension, is_module_extension, is_service_folder, owner_module_path,
    parse_path,
};
use bsl_context::lite_index::object_xml::{fields_of_events, parse_object_xml_for_tests, FieldKind, XmlEvent};
use bsl_context::lite_index::records::{module_record, needs_content, MethodDecl, ModuleRecord, XmlFacts};
use bsl_context::lite_index::tables::{build, LiteIndex};
use bsl_context::lite_index::variables::global_export_vars_from_text;
use bsl_context::SymbolSource;

#[test]
fn owner_module_path_resolves_external_form_module() {
    assert_eq!(
        owner_module_path("external/Моя обработка/Form/ФормаНастроек/Form.obj.bsl"),
        Some("external/Моя обработка/ExternalDataProcessor.obj.bsl".to_string())
    );
}

#[test]
fn owner_module_path_none_for_base_module() {
    assert_eq!(owner_module_path("base/Documents/Заказ/Ext/ObjectModule.bsl"), None);
}

#[test]
fn owner_module_path_none_for_owner_itself() {
    assert_eq!(
        owner_module_path("external/Обработка/ExternalDataProcessor.obj.bsl"),
        None
    );
}

#[test]
fn owner_module_path_case_insensitive() {
    assert_eq!(
        owner_module_path("EXTERNAL/Обработка/FORM/Имя/FORM.OBJ.BSL"),
        Some("EXTERNAL/Обработка/ExternalDataProcessor.obj.bsl".to_string())
    );
}

const DOCUMENT_XML: &str = r#"<?xml version="1.0" encoding="UTF-8"?>
<MetaDataObject xmlns="http://v8.1c.ru/8.3/MDClasses">
  <Document uuid="1">
    <Properties>
      <Name>ЗаказКлиента</Name>
    </Properties>
    <ChildObjects>
      <Attribute uuid="2">
        <Properties>
          <Name>Контрагент</Name>
          <Synonym>
            <v8:item xmlns:v8="http://v8.1c.ru/8.1/data/core">
              <v8:lang>ru</v8:lang>
              <v8:content>Контрагент</v8:content>
            </v8:item>
          </Synonym>
          <ChoiceParameters>
            <app:item name="Отбор.Клиент" xmlns:app="http://v8.1c.ru/8.2/managed-application/core">
              <app:value>true</app:value>
            </app:item>
          </ChoiceParameters>
          <Indexing>DontIndex</Indexing>
        </Properties>
      </Attribute>
      <Attribute uuid="3">
        <Properties>
          <Name>Сделка</Name>
          <Indexing>Index</Indexing>
        </Properties>
      </Attribute>
      <TabularSection uuid="4">
        <Properties>
          <Name>Товары</Name>
        </Properties>
        <ChildObjects>
          <Attribute uuid="5">
            <Properties>
              <Name>Номенклатура</Name>
              <Indexing>Index</Indexing>
            </Properties>
          </Attribute>
        </ChildObjects>
      </TabularSection>
    </ChildObjects>
  </Document>
</MetaDataObject>"#;

const REGISTER_XML: &str = r#"<?xml version="1.0" encoding="UTF-8"?>
<MetaDataObject xmlns="http://v8.1c.ru/8.3/MDClasses">
  <AccumulationRegister uuid="1">
    <Properties>
      <Name>ТоварыНаСкладах</Name>
      <RegisterType>Balance</RegisterType>
      <StandardAttributes>
        <xr:StandardAttribute name="LineNumber" xmlns:xr="http://v8.1c.ru/8.3/xcf/readable">
          <xr:FillChecking>DontCheck</xr:FillChecking>
        </xr:StandardAttribute>
      </StandardAttributes>
    </Properties>
    <ChildObjects>
      <Resource uuid="2">
        <Properties>
          <Name>ВНаличии</Name>
        </Properties>
      </Resource>
      <Dimension uuid="3">
        <Properties>
          <Name>Номенклатура</Name>
          <UseInTotals>true</UseInTotals>
        </Properties>
      </Dimension>
      <Dimension uuid="4">
        <Properties>
          <Name>Склад</Name>
        </Properties>
      </Dimension>
    </ChildObjects>
  </AccumulationRegister>
</MetaDataObject>"#;

#[test]
fn document_attributes_and_indexing() {
    let (register_type, fields) = parse_object_xml_for_tests(DOCUMENT_XML);
    assert_eq!(register_type, None, "у документа вида регистра быть не должно");

    let names: Vec<&str> = fields.iter().map(|(n, ..)| n.as_str()).collect();
    assert!(names.contains(&"Контрагент"), "{names:?}");
    assert!(names.contains(&"Сделка"), "{names:?}");

    let indexing = |name: &str| {
        fields
            .iter()
            .find(|(n, ..)| n == name)
            .and_then(|(_, _, ix)| ix.clone())
    };
    assert_eq!(indexing("Сделка").as_deref(), Some("Index"));
    assert_eq!(indexing("Контрагент"), None);
}

#[test]
fn tabular_section_attributes_are_not_object_fields() {
    let (_, fields) = parse_object_xml_for_tests(DOCUMENT_XML);
    assert!(
        !fields.iter().any(|(n, ..)| n == "Номенклатура"),
        "реквизит табличной части попал в состав объекта: {fields:?}"
    );
}

#[test]
fn register_type_dimensions_and_resources() {
    let (register_type, fields) = parse_object_xml_for_tests(REGISTER_XML);
    assert_eq!(register_type.as_deref(), Some("Balance"));

    let of_kind = |kind: &str| -> Vec<&str> {
        fields
            .iter()
            .filter(|(_, k, _)| k == kind)
            .map(|(n, ..)| n.as_str())
            .collect()
    };
    assert_eq!(of_kind("resource"), vec!["ВНаличии"]);
    let dimensions = of_kind("dimension");
    assert!(dimensions.contains(&"Номенклатура"), "{dimensions:?}");
    assert!(dimensions.contains(&"Склад"), "{dimensions:?}");
}

#[test]
fn standard_attributes_are_not_fields() {
    let (_, fields) = parse_object_xml_for_tests(REGISTER_XML);
    assert!(
        !fields.iter().any(|(n, ..)| n == "LineNumber"),
        "стандартный реквизит попал в состав: {fields:?}"
    );
}

#[test]
fn broken_xml_does_not_panic() {
    let (_, fields) = parse_object_xml_for_tests("<MetaDataObject><Document><ChildObjects><Attribute");
    assert!(fields.is_empty());
}

fn declared(name: &str, is_export: bool) -> MethodDecl {
    MethodDecl {
        name: name.to_string(),
        is_function: false,
        is_export,
        directive: None,
        line_start: 1,
        params: String::new(),
    }
}

fn sample() -> (Vec<ModuleRecord>, XmlFacts) {
    let mut facts = XmlFacts::new();
    facts.take_file(
        "CommonModules",
        "Гло",
        Some("<?xml version=\"1.0\"?>\n<MetaDataObject><CommonModule><Properties><Name>Гло</Name><Global>true</Global></Properties></CommonModule></MetaDataObject>\n"),
    );
    facts.take_file(
        "CommonModules",
        "Обычный",
        Some("<?xml version=\"1.0\"?>\n<MetaDataObject><CommonModule><Properties><Name>Обычный</Name><Global>false</Global></Properties></CommonModule></MetaDataObject>\n"),
    );
    let modules = vec![
        module_record(
            "base/CommonModules/Гло/Ext/Module.bsl",
            "Процедура ИмяИзГло() Экспорт\nКонецПроцедуры\n",
            vec![declared("ИмяИзГло", true)],
            &facts.globals,
        ),
        module_record(
            "base/CommonModules/Обычный/Ext/Module.bsl",
            "Процедура МетодОбычного() Экспорт\nКонецПроцедуры\n",
            vec![declared("МетодОбычного", true)],
            &facts.globals,
        ),
        module_record(
            "external/Обр/ExternalDataProcessor.obj.bsl",
            "Процедура ЭкспортныйМетодОбр() Экспорт\nКонецПроцедуры\n",
            vec![declared("ЭкспортныйМетодОбр", true)],
            &facts.globals,
        ),
        module_record(
            "external/Обр/Form/Ф/Form.obj.bsl",
            "&НаКлиенте\nПроцедура ПриОткрытии(Отказ)\nКонецПроцедуры\n",
            vec![declared("ПриОткрытии", false)],
            &facts.globals,
        ),
    ];
    (modules, facts)
}

#[test]
fn build_indexes_all_modules_and_flags() {
    let (modules, facts) = sample();
    let index = build(&modules, &facts.objects, &Vec::new());
    let stats = index.stats(0);

    assert_eq!(stats.modules, 4, "ожидались 4 модуля, получили {}", stats.modules);
    assert_eq!(stats.global_modules, 1);
    assert!(stats.methods >= 4);

    let row = |path: &str| index.modules.iter().find(|m| m.path == path).unwrap();
    assert!(row("base/CommonModules/Гло/Ext/Module.bsl").is_global, "Гло должен быть is_global=1");
    assert!(!row("base/CommonModules/Обычный/Ext/Module.bsl").is_global);
    assert_eq!(
        row("external/Обр/Form/Ф/Form.obj.bsl").owner_path.as_deref(),
        Some("external/Обр/ExternalDataProcessor.obj.bsl")
    );

    assert!(index.method_exists("имяИзГло"));
    assert!(!index.method_exists("НесуществующийМетод"));

    assert!(index.is_global_export("ИмяИзГло"));
    assert!(!index.is_global_export("МетодОбычного"));

    let exports = index.owner_exports("external/Обр/Form/Ф/Form.obj.bsl");
    assert_eq!(exports, vec!["экспортныйметодобр".to_string()]);
}

#[test]
fn rows_are_numbered_and_methods_point_at_their_module() {
    let (modules, facts) = sample();
    let index = build(&modules, &facts.objects, &vec!["ПараметрыПриложения".to_string()]);
    let ids: Vec<u64> = index.modules.iter().map(|m| m.id).collect();
    assert_eq!(ids, vec![1, 2, 3, 4]);
    let of: Vec<u64> = index.methods.iter().map(|m| m.module_id).collect();
    assert_eq!(of, vec![1, 2, 3, 4]);
    let stats = index.stats(7);
    assert_eq!((stats.objects, stats.global_vars, stats.elapsed_ms), (2, 1, 7));
    assert_eq!(index.all_global_var_names(), Some(vec!["параметрыприложения".to_string()]));
    assert_eq!(index.module_methods("base/CommonModules/Гло/Ext/Module.bsl"), vec!["имяизгло".to_string()]);
    assert_eq!(index.all_method_names().len(), 4);
    assert_eq!(index.all_global_export_names(), vec!["имяизгло".to_string()]);
}

#[test]
fn objects_are_grouped_by_class() {
    let (modules, facts) = sample();
    let mut facts = facts;
    facts.take_file("catalogs", "Товары", None);
    facts.take_file("Catalogs", "Товары", None);
    facts.take_file("Unknown", "Лишний", None);
    let index = build(&modules, &facts.objects, &Vec::new());
    let groups = index.all_objects().unwrap();
    assert_eq!(groups.len(), 2);
    assert_eq!(groups[0].0, "CommonModules");
    assert_eq!(groups[0].1, vec!["Гло".to_string(), "Обычный".to_string()]);
    assert_eq!(groups[1], ("Catalogs".to_string(), vec!["Товары".to_string()]));
}

#[test]
fn owner_follows_from_the_path_where_the_index_does_not_know_the_form() {
    let (modules, facts) = sample();
    let index = build(&modules, &facts.objects, &Vec::new());
    assert_eq!(
        index.owner_exports("external/Обр/Form/Новая/Form.obj.bsl"),
        vec!["экспортныйметодобр".to_string()]
    );
    assert!(index.owner_exports("base/CommonModules/Гло/Ext/Module.bsl").is_empty());
}

#[test]
fn fields_of_all_copies_are_merged() {
    let (modules, facts) = sample();
    let mut facts = facts;
    facts.take_file("Documents", "ЗаказКлиента", Some(DOCUMENT_XML));
    facts.take_file(
        "Documents",
        "ЗаказКлиента",
        Some("<Document><ChildObjects><Attribute><Properties><Name>КОНТРАГЕНТ</Name><Indexing>Index</Indexing></Properties></Attribute><Attribute><Properties><Name>Новый</Name></Properties></Attribute></ChildObjects></Document>"),
    );
    let index = build(&modules, &facts.objects, &Vec::new());
    let known = index.object_schema("Documents", "заказклиента").unwrap();
    assert_eq!(known.register_type, None);
    let fields: Vec<(String, String, Option<String>)> = known.fields;
    assert_eq!(
        fields,
        vec![
            ("Контрагент".to_string(), "attribute".to_string(), Some("Index".to_string())),
            ("Сделка".to_string(), "attribute".to_string(), Some("Index".to_string())),
            ("Новый".to_string(), "attribute".to_string(), None),
        ]
    );
    assert!(index.object_schema("Documents", "нет").is_none());
}

#[test]
fn register_schema_comes_from_its_description() {
    let mut facts = XmlFacts::new();
    facts.take_file("AccumulationRegisters", "ТоварыНаСкладах", Some(REGISTER_XML));
    let index = build(&Vec::new(), &facts.objects, &Vec::new());
    let schema = SymbolSource::object_schema(&index, "AccumulationRegisters", "товарынаскладах").unwrap();
    assert!(schema.is_balance_register());
    assert_eq!(schema.dimensions.len(), 2);
    assert_eq!(schema.resources.len(), 1);
    assert_eq!(schema.register_type.as_deref(), Some("Balance"));
    assert!(schema.field("склад").is_some());
    assert!(schema.field("нет").is_none());
}

#[test]
fn fields_keep_how_they_are_indexed() {
    let mut facts = XmlFacts::new();
    facts.take_file("Documents", "ЗаказКлиента", Some(DOCUMENT_XML));
    let index = build(&Vec::new(), &facts.objects, &Vec::new());
    let schema = SymbolSource::object_schema(&index, "Documents", "заказклиента").unwrap();
    assert_eq!(schema.register_type, None);
    assert_eq!(schema.field("сделка").unwrap().indexing.as_deref(), Some("Index"));
    assert_eq!(schema.field("контрагент").unwrap().indexing, None);
}

#[test]
fn an_index_without_tables_does_not_know() {
    let (modules, facts) = sample();
    let mut index = build(&modules, &facts.objects, &Vec::new());
    assert_eq!(index.object_exists("CommonModules", "гло"), Some(true));
    assert_eq!(index.object_exists("CommonModules", "нет"), Some(false));
    assert_eq!(index.collection_names("CommonModules"), Some(vec!["Гло".to_string(), "Обычный".to_string()]));
    assert_eq!(index.global_variables(), Some(Vec::new()));
    index.objects = None;
    index.fields = None;
    index.global_vars = None;
    assert_eq!(index.object_exists("CommonModules", "нет"), None);
    assert_eq!(index.collection_names("CommonModules"), None);
    assert_eq!(index.global_variables(), None);
    assert!(index.all_objects().is_none());
    assert!(index.all_global_var_names().is_none());
    assert!(LiteIndex::object_schema(&index, "Catalogs", "товары").is_none());
}

#[test]
fn paths_say_what_a_module_is() {
    let facts = parse_path("base/Documents/Заказ/Ext/ObjectModule.bsl");
    assert_eq!(facts.scope, "base");
    assert_eq!(facts.collection.as_deref(), Some("Documents"));
    assert_eq!(facts.object_name.as_deref(), Some("Заказ"));
    assert_eq!(facts.module_type, "ObjectModule");
    let facts = parse_path("EXTENSIONS/Р/catalogs/Т/Forms/Ф/Ext/Form/Module.bsl");
    assert_eq!(facts.scope, "extensions");
    assert_eq!(facts.collection.as_deref(), Some("Catalogs"));
    assert_eq!(facts.module_type, "Form");
    let facts = parse_path("Ext/Неизвестный.bsl");
    assert_eq!((facts.scope.as_str(), facts.module_type.as_str()), ("other", "Other"));
    assert_eq!(facts.collection, None);
    assert_eq!(facts.owner_path, None);
}

#[test]
fn exported_variables_are_read_from_text() {
    let text = "Перем А Экспорт, Б, В экспорт;\r\n// Перем Г Экспорт;\nПЕРЕМ Д ЭКСПОРТ; // и комментарий\nПерем;\nПеремЕ Экспорт;";
    assert_eq!(global_export_vars_from_text(text), vec!["А".to_string(), "В".to_string(), "Д".to_string()]);
    assert!(is_application_module_file("managedapplicationmodule.BSL"));
    assert!(!is_application_module_file("Module.bsl"));
}

#[test]
fn files_of_a_dump_are_told_apart() {
    assert!(is_service_folder(".git") && is_service_folder(".code-index") && !is_service_folder("base"));
    assert!(is_module_extension("BSL") && !is_module_extension("xml"));
    assert!(is_description_extension("Xml") && !is_description_extension("bsl"));
    assert!(needs_content("commonmodules") && needs_content("Catalogs"));
    assert!(!needs_content("Enums") && !needs_content("Forms"));
}

#[test]
fn modules_of_extensions_are_marked() {
    let r = module_record("extensions\\Р\\CommonModules\\О\\Ext\\Module.bsl", "&Вместо(  )\nПроцедура А()", Vec::new(), &Vec::new());
    assert_eq!(r.path, "extensions/Р/CommonModules/О/Ext/Module.bsl");
    assert!(r.is_extension);
    assert!(!r.is_global);
}

#[test]
fn entities_in_a_description_are_resolved() {
    let (kind, fields) = parse_object_xml_for_tests(
        "<R><Properties><RegisterType> Turn&amp;overs </RegisterType></Properties><Resource><P><Name>А&lt;Б</Name></P></Resource></R>",
    );
    assert_eq!(kind.as_deref(), Some("Turn&overs"));
    assert_eq!(fields, vec![("А<Б".to_string(), "resource".to_string(), None)]);
}

#[test]
fn events_alone_give_the_fields() {
    let start = |s: &str| XmlEvent::Start(s.to_string());
    let text = |s: &str| XmlEvent::Text(s.to_string());
    let events = vec![
        start("Dimension"), start("Properties"), start("Name"), text(" Склад "), XmlEvent::End, start("Indexing"),
        text("DontIndex"), XmlEvent::End, XmlEvent::End, XmlEvent::End, XmlEvent::Other,
    ];
    let (kind, fields) = fields_of_events(&events);
    assert!(kind.is_none());
    assert_eq!(fields.len(), 1);
    assert_eq!((fields[0].name.as_str(), fields[0].kind, fields[0].indexing.clone()), ("Склад", FieldKind::Dimension, None));
}

fn dump_file(path: &str, text: Option<&str>, method: Option<&str>) -> DumpFile {
    let mut folders: Vec<String> = path.split('/').map(|p| p.to_string()).collect();
    let name = folders.pop().unwrap();
    let module = method.map(|m| ModuleText {
        masked: text.unwrap_or_default().to_string(),
        methods: vec![MethodDecl {
            name: m.to_string(),
            is_function: false,
            is_export: true,
            directive: None,
            line_start: 1,
            params: String::new(),
        }],
    });
    DumpFile { folders, name, text: text.map(|t| t.to_string()), module }
}

#[test]
fn an_index_counts_the_files_of_a_dump() {
    let files = vec![
        dump_file("dump/base/CommonModules/Гло/Ext/Module.bsl", Some(""), Some("ИмяИзГло")),
        dump_file("dump/base/CommonModules/Гло.xml", Some("<Global>true</Global>"), None),
        dump_file("dump/base/CommonModules/Обычный/Ext/Module.bsl", Some(""), Some("МетодОбычного")),
        dump_file("dump/base/CommonModules/Обычный.xml", Some("<Global>false</Global>"), None),
        dump_file("dump/external/Обр/ExternalDataProcessor.obj.bsl", Some("&Вместо(\"А\")"), Some("ЭкспортныйМетодОбр")),
        dump_file("dump/external/Обр/Form/Ф/Form.obj.bsl", Some(""), Some("ПриОткрытии")),
        dump_file("dump/base/Ext/ManagedApplicationModule.bsl", Some("Перем Общая Экспорт;"), Some("ПриНачале")),
        // A module that cannot be read, modules of service folders, and other files.
        dump_file("dump/base/Catalogs/А/Ext/ObjectModule.bsl", None, None),
        dump_file("dump/.git/Module.bsl", Some(""), Some("Чужой")),
        dump_file("dump/base/.code-index/Module.bsl", Some(""), Some("Чужой")),
        dump_file("dump/base/Catalogs/Товары.XML", None, None),
        dump_file("dump/base/Catalogs/Товары/Ext/Help.xml", Some("<Global>true</Global>"), None),
        dump_file("dump/.bsl", Some(""), Some("Чужой")),
        dump_file("dump/readme.md", None, None),
    ];
    let readings: Vec<Reading> = files.iter().map(|f| f.reading()).collect();
    assert_eq!(readings.iter().filter(|r| **r == Reading::Module).count(), 6);
    assert_eq!(readings.iter().filter(|r| **r == Reading::Text).count(), 3);
    let index = index_of_files(files.into_iter().map(read_file).collect());
    let stats = index.stats(0);
    assert_eq!((stats.modules, stats.methods, stats.global_modules), (5, 5, 1));
    assert_eq!((stats.objects, stats.global_vars), (3, 1));
    let paths: Vec<&str> = index.modules.iter().map(|m| m.path.as_str()).collect();
    assert_eq!(paths[0], "base/CommonModules/Гло/Ext/Module.bsl");
    assert_eq!(index.modules.iter().map(|m| m.is_global).collect::<Vec<_>>(), vec![true, false, false, false, false]);
    assert_eq!(index.modules.iter().map(|m| m.is_extension).collect::<Vec<_>>(), vec![false, false, true, false, false]);
    assert!(index.method_exists("имяизгло") && !index.method_exists("чужой"));
}

#[test]
fn names_are_split_at_the_last_dot() {
    let parts = |name: &str| split_name(name);
    assert_eq!(parts("Form.obj.bsl"), ("Form.obj".to_string(), Some("bsl".to_string())));
    assert_eq!(parts("А.xml"), ("А".to_string(), Some("xml".to_string())));
    assert_eq!(parts(".bsl"), (".bsl".to_string(), None));
    assert_eq!(parts("имя"), ("имя".to_string(), None));
    assert_eq!(parts("имя."), ("имя".to_string(), Some(String::new())));
}
