use pot::config::{get, is_first_run, ConfigStore, ConfigValue};

fn text(s: &str) -> ConfigValue {
    ConfigValue::Text(s.to_string())
}

#[test]
fn set_then_get_returns_each_value_shape() {
    let mut store = ConfigStore::new();
    let values = vec![
        ("null", ConfigValue::Null),
        ("flag", ConfigValue::Bool(true)),
        ("port", ConfigValue::Number("7890".to_string())),
        ("name", text("pot")),
        ("list", ConfigValue::List(vec![text("a"), ConfigValue::Bool(false)])),
        ("obj", ConfigValue::Object(vec![("k".to_string(), ConfigValue::Null)])),
    ];
    for (k, v) in values {
        let expected = format!("{:?}", v);
        pot::config::set(&mut store, k, v);
        assert_eq!(format!("{:?}", get(&store, k).unwrap()), expected);
    }
    assert_eq!(get(&store, "name"), Some(&text("pot")));
    assert_eq!(get(&store, "missing"), None);
}

#[test]
fn set_replaces_earlier_value() {
    let mut store = ConfigStore::new();
    pot::config::set(&mut store, "k", text("one"));
    pot::config::set(&mut store, "other", text("x"));
    pot::config::set(&mut store, "k", text("two"));
    assert_eq!(get(&store, "k"), Some(&text("two")));
    assert_eq!(get(&store, "other"), Some(&text("x")));
}

#[test]
fn first_run_until_first_set() {
    let mut store = ConfigStore::new();
    assert!(is_first_run(&store));
    assert!(store.is_empty());
    pot::config::set(&mut store, "hotkey_input_translate", text(""));
    assert!(!is_first_run(&store));
}

#[test]
fn load_replaces_whole_contents() {
    let mut store = ConfigStore::new();
    pot::config::set(&mut store, "old", text("gone"));
    store.load(vec![
        ("a".to_string(), text("1")),
        ("b".to_string(), text("2")),
        ("a".to_string(), text("3")),
    ]);
    assert_eq!(get(&store, "old"), None);
    assert_eq!(get(&store, "a"), Some(&text("3")));
    assert_eq!(get(&store, "b"), Some(&text("2")));
}

#[test]
fn load_of_nothing_gives_first_run() {
    let mut store = ConfigStore::new();
    pot::config::set(&mut store, "x", ConfigValue::Null);
    store.load(Vec::new());
    assert!(is_first_run(&store));
}
