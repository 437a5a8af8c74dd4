use pot::config::{get, ConfigStore, ConfigValue};
use pot::hotkey::{
    complete_registration, register_shortcut, register_shortcut_by_frontend, resolve_hotkey, Action,
    BulkRegistration, RegistrationError,
};

fn text(s: &str) -> ConfigValue {
    ConfigValue::Text(s.to_string())
}

#[test]
fn absent_binding_is_created_empty_and_not_registered() {
    let mut store = ConfigStore::new();
    let r = resolve_hotkey(&mut store, Action::InputTranslate, "");
    assert!(r.is_none());
    assert_eq!(get(&store, "hotkey_input_translate"), Some(&text("")));
}

#[test]
fn empty_binding_is_not_registered() {
    let mut store = ConfigStore::new();
    pot::config::set(&mut store, "hotkey_selection_translate", text(""));
    assert!(resolve_hotkey(&mut store, Action::SelectionTranslate, "").is_none());
    assert_eq!(get(&store, "hotkey_selection_translate"), Some(&text("")));
}

#[test]
fn stored_binding_is_registered_without_rewrite() {
    let mut store = ConfigStore::new();
    pot::config::set(&mut store, "hotkey_selection_translate", text("CommandOrControl+Shift+A"));
    let reg = resolve_hotkey(&mut store, Action::SelectionTranslate, "").unwrap();
    assert_eq!(reg.action, Action::SelectionTranslate);
    assert_eq!(reg.hotkey, "CommandOrControl+Shift+A");
    assert!(!reg.persist);
    assert!(complete_registration(&mut store, reg, Ok(())).is_ok());
}

#[test]
fn conflicting_explicit_binding_leaves_store_unchanged() {
    let mut store = ConfigStore::new();
    pot::config::set(&mut store, "hotkey_input_translate", text("Alt+Q"));
    let reg = resolve_hotkey(&mut store, Action::InputTranslate, "Ctrl+A").unwrap();
    assert_eq!(reg.hotkey, "Ctrl+A");
    let r = complete_registration(&mut store, reg, Err("already registered".to_string()));
    assert_eq!(r.unwrap_err().message, "already registered");
    assert_eq!(get(&store, "hotkey_input_translate"), Some(&text("Alt+Q")));
}

#[test]
fn accepted_explicit_binding_is_persisted() {
    let mut store = ConfigStore::new();
    pot::config::set(&mut store, "hotkey_input_translate", text("Alt+Q"));
    let reg = resolve_hotkey(&mut store, Action::InputTranslate, "Ctrl+B").unwrap();
    assert!(reg.persist);
    assert!(get(&store, "hotkey_input_translate") == Some(&text("Alt+Q")));
    assert!(complete_registration(&mut store, reg, Ok(())).is_ok());
    assert_eq!(get(&store, "hotkey_input_translate"), Some(&text("Ctrl+B")));
}

#[test]
fn shortcut_requests_name_actions() {
    assert_eq!(register_shortcut("all"), vec![Action::SelectionTranslate, Action::InputTranslate]);
    assert_eq!(register_shortcut("hotkey_input_translate"), vec![Action::InputTranslate]);
    assert_eq!(
        register_shortcut("hotkey_selection_translate"),
        vec![Action::SelectionTranslate]
    );
    assert!(register_shortcut("hotkey_unknown").is_empty());
    assert_eq!(Action::from_name("hotkey_input_translate"), Some(Action::InputTranslate));
    assert_eq!(Action::InputTranslate.store_key(), "hotkey_input_translate");
}

#[test]
fn frontend_binding_for_unknown_name_does_nothing() {
    let mut store = ConfigStore::new();
    assert!(register_shortcut_by_frontend(&mut store, "hotkey_other", "Ctrl+A").is_none());
    assert!(store.is_empty());
    let reg = register_shortcut_by_frontend(&mut store, "hotkey_selection_translate", "Ctrl+D");
    let reg = reg.unwrap();
    assert_eq!(reg.action, Action::SelectionTranslate);
    assert_eq!(reg.hotkey, "Ctrl+D");
}

#[test]
fn bulk_registration_reports_exactly_the_failure() {
    let actions = vec![Action::SelectionTranslate, Action::InputTranslate, Action::SelectionTranslate];
    let mut bulk = BulkRegistration::new(actions);
    let mut attempts = 0;
    while let Some(action) = bulk.next_action() {
        attempts += 1;
        let outcome = if attempts == 2 {
            Err(RegistrationError { message: format!("conflict for {:?}", action) })
        } else {
            Ok(())
        };
        bulk.record(outcome);
    }
    assert_eq!(attempts, 3);
    let failures = bulk.finish().unwrap_err();
    assert_eq!(failures.len(), 1);
    assert_eq!(failures[0].0, Action::InputTranslate);
    assert_eq!(failures[0].1.message, "conflict for InputTranslate");
}

#[test]
fn bulk_registration_without_failure_is_ok() {
    let mut bulk = BulkRegistration::new(vec![Action::InputTranslate]);
    assert_eq!(bulk.next_action(), Some(Action::InputTranslate));
    bulk.record(Ok(()));
    assert_eq!(bulk.next_action(), None);
    assert!(bulk.finish().is_ok());
}

#[test]
fn clearing_a_binding_stores_empty_and_returns_old() {
    let mut store = ConfigStore::new();
    pot::config::set(&mut store, "hotkey_selection_translate", text("Ctrl+Alt+T"));
    let old = pot::hotkey::clear_hotkey(&mut store, Action::SelectionTranslate);
    assert_eq!(old, Some("Ctrl+Alt+T".to_string()));
    assert_eq!(get(&store, "hotkey_selection_translate"), Some(&text("")));
    assert!(resolve_hotkey(&mut store, Action::SelectionTranslate, "").is_none());
    assert_eq!(pot::hotkey::clear_hotkey(&mut store, Action::SelectionTranslate), None);
}

#[test]
fn frontend_binding_with_empty_shortcut_uses_stored() {
    let mut store = ConfigStore::new();
    assert!(register_shortcut_by_frontend(&mut store, "hotkey_input_translate", "").is_none());
    assert_eq!(get(&store, "hotkey_input_translate"), Some(&text("")));
    pot::config::set(&mut store, "hotkey_input_translate", text("Alt+W"));
    let reg = register_shortcut_by_frontend(&mut store, "hotkey_input_translate", "").unwrap();
    assert_eq!(reg.hotkey, "Alt+W");
    assert!(!reg.persist);
}

#[test]
fn non_text_binding_counts_as_unbound() {
    let mut store = ConfigStore::new();
    pot::config::set(&mut store, "hotkey_input_translate", ConfigValue::Bool(true));
    assert!(resolve_hotkey(&mut store, Action::InputTranslate, "").is_none());
    assert_eq!(get(&store, "hotkey_input_translate"), Some(&ConfigValue::Bool(true)));
}
