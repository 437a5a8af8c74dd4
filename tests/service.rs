use pot::config::{get, ConfigStore, ConfigValue};
use pot::service::{
    check_available, check_service_available, filter_available, service_available, text_list,
    text_list_value,
};
use pot::text::{same_text, split_base_name};

fn strings(v: &[&str]) -> Vec<String> {
    v.iter().map(|s| s.to_string()).collect()
}

fn list_value(v: &[&str]) -> ConfigValue {
    text_list_value(&strings(v))
}

#[test]
fn validator_removes_unknown_service() {
    let list = strings(&["system", "tesseract", "pluginfoo@1", "bogus"]);
    let kept = filter_available(&list, &vec!["system", "tesseract"], &strings(&["pluginfoo"]));
    assert_eq!(kept, strings(&["system", "tesseract", "pluginfoo@1"]));
}

#[test]
fn validator_writes_once_then_never_again() {
    let mut store = ConfigStore::new();
    let list = strings(&["system", "tesseract", "pluginfoo@1", "bogus"]);
    let wrote = check_available(
        &mut store,
        list,
        vec!["system", "tesseract"],
        strings(&["pluginfoo"]),
        "recognize_service_list",
    );
    assert!(wrote);
    let stored = text_list(get(&store, "recognize_service_list").unwrap()).unwrap();
    assert_eq!(stored, strings(&["system", "tesseract", "pluginfoo@1"]));
    let again = check_available(
        &mut store,
        stored,
        vec!["system", "tesseract"],
        strings(&["pluginfoo"]),
        "recognize_service_list",
    );
    assert!(!again);
}

#[test]
fn validator_keeps_order_and_drops_unknown_plugins() {
    let list = strings(&["google", "plugin_gone", "youdao@x", "deepl", "baidu"]);
    let kept = filter_available(&list, &vec!["youdao", "google", "deepl"], &Vec::new());
    assert_eq!(kept, strings(&["google", "youdao@x", "deepl"]));
}

#[test]
fn clean_list_is_not_written() {
    let mut store = ConfigStore::new();
    let wrote = check_available(
        &mut store,
        strings(&["system"]),
        vec!["system", "tesseract"],
        Vec::new(),
        "recognize_service_list",
    );
    assert!(!wrote);
    assert!(get(&store, "recognize_service_list").is_none());
}

#[test]
fn check_service_available_prunes_both_lists() {
    let mut store = ConfigStore::new();
    pot::config::set(&mut store, "recognize_service_list", list_value(&["system", "gone"]));
    pot::config::set(&mut store, "translate_service_list", list_value(&["deepl", "bing"]));
    assert!(check_service_available(&mut store).is_ok());
    let r = text_list(get(&store, "recognize_service_list").unwrap()).unwrap();
    let t = text_list(get(&store, "translate_service_list").unwrap()).unwrap();
    assert_eq!(r, strings(&["system"]));
    assert_eq!(t, strings(&["deepl"]));
}

#[test]
fn malformed_list_does_not_block_the_other() {
    let mut store = ConfigStore::new();
    pot::config::set(&mut store, "recognize_service_list", list_value(&["system", "gone"]));
    pot::config::set(&mut store, "translate_service_list", ConfigValue::Bool(true));
    let err = check_service_available(&mut store).unwrap_err();
    assert_eq!(err.key, "translate_service_list");
    let r = text_list(get(&store, "recognize_service_list").unwrap()).unwrap();
    assert_eq!(r, strings(&["system"]));
    assert_eq!(get(&store, "translate_service_list"), Some(&ConfigValue::Bool(true)));
}

#[test]
fn missing_lists_are_left_alone() {
    let mut store = ConfigStore::new();
    assert!(check_service_available(&mut store).is_ok());
    assert!(store.is_empty());
}

#[test]
fn list_with_non_text_item_is_malformed() {
    let v = ConfigValue::List(vec![ConfigValue::Text("a".to_string()), ConfigValue::Null]);
    assert!(text_list(&v).is_none());
    assert!(text_list(&ConfigValue::Null).is_none());
}

#[test]
fn base_name_stops_at_first_at_sign() {
    assert_eq!(split_base_name("pluginfoo@1@2"), "pluginfoo");
    assert_eq!(split_base_name("system"), "system");
    assert_eq!(split_base_name("@x"), "");
    assert!(same_text("abc", "abc"));
    assert!(!same_text("abc", "abd"));
}

#[test]
fn plugin_prefix_selects_plugin_set() {
    // a plugin-style name is looked up among plugins only
    assert!(!service_available("pluginfoo", &vec!["pluginfoo"], &Vec::new()));
    assert!(service_available("pluginfoo@v2", &vec![], &strings(&["pluginfoo"])));
    assert!(!service_available("system", &vec![], &strings(&["system"])));
}
