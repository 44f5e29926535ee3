//! What the platform offers.
use bsl_context::platform::{Method, PlatformIndex};

fn method(name_ru: &str, name_en: &str) -> Method {
    Method {
        name_ru: name_ru.into(),
        name_en: name_en.into(),
        description: String::new(),
        return_type: String::new(),
        signatures: Vec::new(),
    }
}

#[test]
fn find_global_method_by_russian_name() {
    let mut index = PlatformIndex::new();
    index.global_methods.push(method("Сообщить", "Message"));
    assert!(index.find_global_method("сообщить").is_some());
}

#[test]
fn find_global_method_by_english_name() {
    let mut index = PlatformIndex::new();
    index.global_methods.push(method("Сообщить", "Message"));
    assert!(index.find_global_method("Message").is_some());
    assert!(index.find_global_method("message").is_some());
}

#[test]
fn find_global_method_empty_name_en_does_not_match_empty_query() {
    let mut index = PlatformIndex::new();
    index.global_methods.push(method("Прочее", ""));
    assert!(index.find_global_method("").is_none());
}
