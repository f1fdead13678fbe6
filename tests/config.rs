use std::collections::HashSet;

use oukaro::{App, Config, ConfigError, Role};

fn set_of(a: &App, role: Role) -> HashSet<String> {
    a.names(role).iter().cloned().collect()
}

#[test]
fn new_config_is_empty() {
    let c = Config::new();
    assert!(c.get().system_app.is_empty());
    assert!(c.get().priv_app.is_empty());
}

#[test]
fn insert_and_remove_edit_one_role() {
    let mut a = App::empty();
    assert!(a.insert(Role::SystemApp, "com.a".to_string()));
    assert!(!a.insert(Role::SystemApp, "com.a".to_string()));
    assert!(a.insert(Role::PrivilegedApp, "com.a".to_string()));
    assert!(a.contains(Role::SystemApp, &"com.a".to_string()));
    assert!(a.remove(Role::SystemApp, &"com.a".to_string()));
    assert!(!a.remove(Role::SystemApp, &"com.a".to_string()));
    assert!(!a.contains(Role::SystemApp, &"com.a".to_string()));
    assert!(a.contains(Role::PrivilegedApp, &"com.a".to_string()));
}

#[test]
fn from_lists_drops_repeats() {
    let a = App::from_lists(
        vec!["x".to_string(), "y".to_string(), "x".to_string()],
        vec!["Z".to_string(), "z".to_string()],
    );
    assert_eq!(a.system_app.len(), 2);
    assert_eq!(a.priv_app.len(), 2);
}

#[test]
fn load_config_replaces_or_keeps() {
    let mut c = Config::new();
    let loaded = App::from_lists(vec!["com.a".to_string()], vec![]);
    assert_eq!(c.load_config(Ok(loaded)), Ok(()));
    assert_eq!(set_of(&c.get(), Role::SystemApp), ["com.a".to_string()].into_iter().collect());
    assert_eq!(c.load_config(Err(ConfigError::Malformed)), Err(ConfigError::Malformed));
    assert_eq!(c.load_config(Err(ConfigError::Unavailable)), Err(ConfigError::Unavailable));
    assert_eq!(set_of(&c.get(), Role::SystemApp), ["com.a".to_string()].into_iter().collect());
}

fn to_toml(a: &App) -> String {
    let list = |v: &Vec<String>| {
        toml::Value::Array(v.iter().map(|s| toml::Value::String(s.clone())).collect())
    };
    let mut inner = toml::Table::new();
    inner.insert("system_app".to_string(), list(&a.system_app));
    inner.insert("priv_app".to_string(), list(&a.priv_app));
    let mut doc = toml::Table::new();
    doc.insert("app".to_string(), toml::Value::Table(inner));
    toml::to_string(&doc).unwrap()
}

fn from_toml(text: &str) -> App {
    let doc: toml::Table = text.parse().unwrap();
    let inner = doc["app"].as_table().unwrap();
    let list = |key: &str| -> Vec<String> {
        inner[key].as_array().unwrap().iter().map(|v| v.as_str().unwrap().to_string()).collect()
    };
    App::from_lists(list("system_app"), list("priv_app"))
}

#[test]
fn config_round_trip_keeps_sets() {
    let written = App::from_lists(
        vec!["com.b".to_string(), "com.a".to_string()],
        vec!["com.c".to_string()],
    );
    let read = from_toml(&to_toml(&written));
    let want: HashSet<String> = ["com.a".to_string(), "com.b".to_string()].into_iter().collect();
    assert_eq!(set_of(&read, Role::SystemApp), want);
    assert_eq!(set_of(&read, Role::PrivilegedApp), ["com.c".to_string()].into_iter().collect());
}

#[test]
fn empty_names_are_refused() {
    let a = App::from_lists(vec!["".to_string(), "k".to_string()], vec!["".to_string()]);
    assert_eq!(a.system_app, vec!["k".to_string()]);
    assert!(a.priv_app.is_empty());
    let mut b = App::empty();
    assert!(!b.insert(Role::SystemApp, String::new()));
    assert!(b.system_app.is_empty());
}
