//! Declarations of procedures and the balance of their blocks.
use bsl_context::declarations::{check_declarations, check_module_structure, is_indent_char, scan_declarations_with_pos, scan_structure_tokens};
use bsl_context::{ExprError, ExprErrorKind};

/// A lexeme of a module: its text and the byte at which it stands.
#[derive(Clone, Debug)]
struct Lexeme {
    text: String,
    byte: usize,
    is_name: bool,
    is_literal: bool,
}

fn blank(bytes: &mut [u8], from: usize, to: usize) {
    for b in &mut bytes[from..to] {
        if *b != b'\n' {
            *b = b' ';
        }
    }
}

/// Splits a module into lexemes, and blanks its strings and comments.
fn lexemes(src: &str) -> (Vec<Lexeme>, String) {
    let mut cleaned = src.as_bytes().to_vec();
    let chars: Vec<(usize, char)> = src.char_indices().collect();
    let end_of = |i: usize| if i < chars.len() { chars[i].0 } else { src.len() };
    let mut out = Vec::new();
    let mut i = 0;
    while i < chars.len() {
        let (byte, c) = chars[i];
        if c == '/' && i + 1 < chars.len() && chars[i + 1].1 == '/' {
            let mut j = i;
            while j < chars.len() && chars[j].1 != '\n' {
                j += 1;
            }
            blank(&mut cleaned, byte, end_of(j));
            i = j;
        } else if c == '"' {
            let mut j = i + 1;
            while j < chars.len() && chars[j].1 != '"' {
                j += 1;
            }
            let end = end_of(j + 1);
            blank(&mut cleaned, byte, end);
            out.push(Lexeme {
                text: src[end_of(i + 1)..end_of(j)].to_string(),
                byte: end_of(i + 1),
                is_name: false,
                is_literal: true,
            });
            i = j + 1;
        } else if c.is_alphanumeric() || c == '_' {
            let mut j = i;
            while j < chars.len() && (chars[j].1.is_alphanumeric() || chars[j].1 == '_') {
                j += 1;
            }
            out.push(Lexeme {
                text: src[byte..end_of(j)].to_string(),
                byte,
                is_name: !c.is_numeric(),
                is_literal: false,
            });
            i = j;
        } else {
            if !c.is_whitespace() && c != '\u{FEFF}' {
                out.push(Lexeme { text: c.to_string(), byte, is_name: false, is_literal: false });
            }
            i += 1;
        }
    }
    (out, String::from_utf8(cleaned).unwrap())
}

#[test]
fn nbsp_is_indent_but_newline_is_not() {
    assert!(is_indent_char('\u{00A0}'), "неразрывный пробел — отступ");
    assert!(is_indent_char('\u{FEFF}'), "BOM — не значащий символ");
    assert!(is_indent_char(' ') && is_indent_char('\t'));
    assert!(!is_indent_char('\n') && !is_indent_char('\r'));
}

fn run(src: &str) -> Vec<ExprError> {
    let cleaned = lexemes(src).1;
    let mut errors = Vec::new();
    check_declarations(src, &cleaned, &mut errors);
    check_module_structure(src, &cleaned, &mut errors);
    errors
}

fn kinds(errors: &[ExprError]) -> Vec<ExprErrorKind> {
    errors.iter().map(|e| e.kind).collect()
}

#[test]
fn keyword_as_procedure_name_is_caught() {
    let errors = run("&НаКлиенте\nПроцедура Выполнить(Команда)\nКонецПроцедуры");
    assert!(kinds(&errors).contains(&ExprErrorKind::ReservedProcedureName));
}

#[test]
fn ordinary_name_is_silent() {
    let errors = run("&НаКлиенте\nПроцедура ВыполнитьКоманду(Команда)\nКонецПроцедуры");
    assert!(errors.is_empty(), "неожиданные находки: {errors:?}");
}

#[test]
fn platform_method_name_is_allowed_as_declaration() {
    let src = "Функция СтрЗаканчиваетсяНа(Стр, Ок)\n\tВозврат Истина;\nКонецФункции\n\n\
               Функция ПроверитьЗаполнение()\n\tВозврат Истина;\nКонецФункции";
    assert!(run(src).is_empty(), "ложные находки: {:?}", run(src));
}

#[test]
fn platform_rejected_name_is_caught() {
    let errors = run("&НаКлиенте\nПроцедура Найти(Команда)\nКонецПроцедуры");
    assert!(kinds(&errors).contains(&ExprErrorKind::ReservedProcedureName));
}

#[test]
fn duplicate_declaration_is_caught() {
    let src = "Функция СтрЗаканчиваетсяНа(А, Б)\n\tВозврат Истина;\nКонецФункции\n\n\
               Функция СтрЗаканчиваетсяНа(А, Б)\n\tВозврат Ложь;\nКонецФункции";
    let errors = run(src);
    assert!(kinds(&errors).contains(&ExprErrorKind::DuplicateDeclaration));
}

#[test]
fn extra_end_of_block_is_caught() {
    let src = "Функция Значение()\n\tВозврат 1;\nКонецФункции\nКонецФункции\n";
    let errors = run(src);
    assert!(kinds(&errors).contains(&ExprErrorKind::UnbalancedModuleBlock));
}

#[test]
fn missing_end_of_block_is_caught() {
    let src = "Процедура Раз()\n\tСообщить(1);\n";
    let errors = run(src);
    assert!(kinds(&errors).contains(&ExprErrorKind::UnbalancedModuleBlock));
}

#[test]
fn balanced_module_is_silent() {
    let src = "&НаСервере\nПроцедура Раз()\n\tДва();\nКонецПроцедуры\n\n\
               &НаСервере\nФункция Два()\n\tВозврат 1;\nКонецФункции\n";
    assert!(run(src).is_empty());
}

#[test]
fn nbsp_indent_does_not_hide_end_of_block() {
    let src = "&НаКлиенте\nПроцедура Раз(Команда)\n\tСообщить(1);\n\u{00A0}КонецПроцедуры\n\n\
               &НаКлиенте\nПроцедура Два(Команда)\n\tСообщить(2);\nКонецПроцедуры\n";
    assert!(run(src).is_empty(), "ложные находки: {:?}", run(src));
}

#[test]
fn obfuscated_one_line_module_is_balanced() {
    let src = "функция a()возврат 1;конецфункции  функция б()возврат 2;конецфункции\n";
    assert!(run(src).is_empty(), "ложные находки: {:?}", run(src));
}

#[test]
fn word_inside_identifier_is_not_a_keyword() {
    let src = "Процедура Раз()\n\tМояФункцияРасчёта = 1;\n\tПроцедураПодготовки = 2;\nКонецПроцедуры\n";
    assert!(run(src).is_empty(), "ложные находки: {:?}", run(src));
}

#[test]
fn property_named_procedure_is_not_a_header() {
    let src = "Процедура ПриДобавленииОбработчиковОбновления(Обработчики) Экспорт\n\
               \tОбработчик = Обработчики.Добавить();\n\
               \tОбработчик.Процедура = \"РегистрыНакопления.Х.Обработать\";\n\
               \tОбработчик.ПроцедураПроверки = \"ОбновлениеИнформационнойБазы.Данные\";\n\
               КонецПроцедуры\n";
    assert!(run(src).is_empty(), "ложные находки: {:?}", run(src));
}

#[test]
fn bom_does_not_break_first_header() {
    let src = "\u{FEFF}Процедура Раз() Экспорт\n\tСообщить(1);\nКонецПроцедуры\n";
    assert!(run(src).is_empty(), "находки на корректном модуле: {:?}", run(src));
}

#[test]
fn async_procedure_is_a_header() {
    let src = "&НаКлиенте\nАсинх Процедура Раз(Команда)\n\tСообщить(1);\nКонецПроцедуры\n";
    assert!(run(src).is_empty(), "находки на корректном модуле");
}

#[test]
fn async_procedure_name_is_checked() {
    let src = "Асинх Процедура Выполнить(Команда)\nКонецПроцедуры\n";
    assert!(kinds(&run(src)).contains(&ExprErrorKind::ReservedProcedureName));
}

#[test]
fn async_without_space_is_not_a_modifier() {
    let src = "АсинхПроцедура = 1;\n";
    assert!(run(src).is_empty());
}

#[test]
fn keyword_inside_string_literal_is_ignored() {
    let src = "Процедура Раз()\n\tТекст = \"Функция Выполнить(А)\";\nКонецПроцедуры\n";
    assert!(run(src).is_empty());
}
