use nvm_core::alias_file::AliasFileError;
use nvm_core::aliases::Aliases;

#[test]
fn test_new_aliases() {
    let aliases = Aliases::new();
    assert!(aliases.aliases.is_empty());
}

#[test]
fn test_set_and_get() {
    let mut aliases = Aliases::new();
    aliases.set("default".to_string(), "v20.10.0".to_string());

    assert_eq!(aliases.get("default"), Some(&"v20.10.0".to_string()));
    assert_eq!(aliases.get("nonexistent"), None);
}

#[test]
fn test_remove() {
    let mut aliases = Aliases::new();
    aliases.set("default".to_string(), "v20.10.0".to_string());

    let removed = aliases.remove("default");
    assert_eq!(removed, Some("v20.10.0".to_string()));
    assert!(!aliases.contains("default"));
}

#[test]
fn test_contains() {
    let mut aliases = Aliases::new();
    aliases.set("default".to_string(), "v20.10.0".to_string());

    assert!(aliases.contains("default"));
    assert!(!aliases.contains("nonexistent"));
}

#[test]
fn test_list() {
    let mut aliases = Aliases::new();
    aliases.set("default".to_string(), "v20.10.0".to_string());
    aliases.set("stable".to_string(), "v22.0.0".to_string());
    aliases.set("lts".to_string(), "v20.10.0".to_string());

    let list = aliases.list();
    assert_eq!(list.len(), 3);

    assert_eq!(list[0].0, "default");
    assert_eq!(list[1].0, "lts");
    assert_eq!(list[2].0, "stable");
}

#[test]
fn test_valid_alias_names() {
    assert!(Aliases::is_valid_alias_name("default"));
    assert!(Aliases::is_valid_alias_name("stable"));
    assert!(Aliases::is_valid_alias_name("lts"));
    assert!(Aliases::is_valid_alias_name("my-alias"));
    assert!(Aliases::is_valid_alias_name("my_alias"));
    assert!(Aliases::is_valid_alias_name("lts/iron"));
    assert!(Aliases::is_valid_alias_name("vtest"));

    assert!(!Aliases::is_valid_alias_name(""));
    assert!(!Aliases::is_valid_alias_name("v20"));
    assert!(!Aliases::is_valid_alias_name("v20.10.0"));
}

#[test]
fn test_resolve() {
    let mut aliases = Aliases::new();
    aliases.set("default".to_string(), "v20.10.0".to_string());
    aliases.set("stable".to_string(), "v22.0.0".to_string());

    assert_eq!(aliases.resolve("default"), Some("v20.10.0".to_string()));
    assert_eq!(aliases.resolve("stable"), Some("v22.0.0".to_string()));

    assert_eq!(aliases.resolve("v20.10.0"), Some("v20.10.0".to_string()));
    assert_eq!(aliases.resolve("v22.0.0"), Some("v22.0.0".to_string()));

    assert_eq!(aliases.resolve("nonexistent"), None);
}

#[test]
fn test_serialize_deserialize() {
    let mut aliases = Aliases::new();
    aliases.set("default".to_string(), "v20.10.0".to_string());
    aliases.set("stable".to_string(), "v22.0.0".to_string());

    let json = aliases.to_json().unwrap();
    let deserialized = Aliases::from_json(&json).unwrap();

    assert_eq!(deserialized.get("default"), Some(&"v20.10.0".to_string()));
    assert_eq!(deserialized.get("stable"), Some(&"v22.0.0".to_string()));
}

#[test]
fn alias_name_validation_examples() {
    assert!(!Aliases::is_valid_alias_name("v20"));
    assert!(!Aliases::is_valid_alias_name("v20.10.0"));
    assert!(Aliases::is_valid_alias_name("vnext"));
    assert!(!Aliases::is_valid_alias_name(""));
    assert!(Aliases::is_valid_alias_name("lts/iron"));
    assert!(!Aliases::is_valid_alias_name("bad name"));
    assert!(!Aliases::is_valid_alias_name("a.b"));
    assert!(Aliases::is_valid_alias_name("café"));
}

#[test]
fn set_replaces_existing_target() {
    let mut aliases = Aliases::new();
    aliases.set("work".to_string(), "v18.0.0".to_string());
    aliases.set("work".to_string(), "v20.0.0".to_string());
    assert_eq!(aliases.list().len(), 1);
    assert_eq!(aliases.get("work"), Some(&"v20.0.0".to_string()));
}

#[test]
fn remove_missing_alias_gives_none() {
    let mut aliases = Aliases::new();
    aliases.set("a".to_string(), "v1.0.0".to_string());
    assert_eq!(aliases.remove("b"), None);
    assert!(aliases.contains("a"));
}

#[test]
fn list_of_empty_store_is_empty() {
    assert!(Aliases::new().list().is_empty());
}

#[test]
fn blank_alias_file_is_an_empty_store() {
    let a = Aliases::from_json("  \n\t ").unwrap();
    assert!(a.list().is_empty());
    let b = Aliases::from_json("").unwrap();
    assert!(b.list().is_empty());
}

#[test]
fn malformed_alias_file_is_an_error() {
    assert_eq!(Aliases::from_json("{not json").err(), Some(AliasFileError::Malformed));
    assert_eq!(Aliases::from_json("[1, 2]").err(), Some(AliasFileError::Malformed));
    assert_eq!(Aliases::from_json("{\"a\": 1}").err(), Some(AliasFileError::Malformed));
}

#[test]
fn alias_file_is_read_by_name() {
    let a = Aliases::from_json("{\"work\": \"v18.0.0\", \"default\": \"lts\"}").unwrap();
    assert_eq!(a.get("work"), Some(&"v18.0.0".to_string()));
    assert_eq!(a.get("default"), Some(&"lts".to_string()));
    let list = a.list();
    assert_eq!(list[0].0, "default");
    assert_eq!(list[1].0, "work");
}

#[test]
fn alias_file_text_is_a_json_object() {
    let mut a = Aliases::new();
    a.set("work".to_string(), "v18.0.0".to_string());
    let text = a.to_json().unwrap();
    assert!(text.contains("\"work\""));
    assert!(text.contains("\"v18.0.0\""));
    assert!(text.trim_start().starts_with('{'));
}

#[test]
fn alias_names_starting_with_a_digit_are_rejected() {
    assert!(!Aliases::is_valid_alias_name("20"));
    assert!(!Aliases::is_valid_alias_name("18.19.0"));
    assert!(!Aliases::is_valid_alias_name("1x"));
    assert!(Aliases::is_valid_alias_name("x1"));
}

#[test]
fn alias_file_round_trip_keeps_every_alias() {
    let mut aliases = Aliases::new();
    aliases.set("zeta".to_string(), "v1.0.0".to_string());
    aliases.set("alpha".to_string(), "lts/iron".to_string());
    aliases.set("quote\"d".to_string(), "v2.0.0".to_string());
    let back = Aliases::from_json(&aliases.to_json().unwrap()).unwrap();
    assert_eq!(back.list(), aliases.list());
}
