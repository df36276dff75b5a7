use translation_checker::dictionary::{
    reconcile, Dictionary, DictionaryError, Reconciliation, PLACEHOLDER, STATUS_ADDED,
    STATUS_COMPLETE, STATUS_FAILED,
};
use translation_checker::keys::KeySet;

fn set_of(items: &[&str]) -> KeySet {
    let mut set = KeySet::new();
    for item in items {
        set.insert(item.to_string());
    }
    set
}

fn strings(items: &[&str]) -> Vec<String> {
    items.iter().map(|s| s.to_string()).collect()
}

#[test]
fn missing_key_is_added_with_the_placeholder() {
    let keys = set_of(&["home.title", "home.subtitle"]);
    let done = reconcile(&keys, "{\"home.title\": \"Home\"}").expect("valid dictionary");
    assert_eq!(done.added, strings(&["home.subtitle"]));
    assert_eq!(done.added.len(), 1);
    assert_eq!(
        done.rewritten.as_deref(),
        Some("{\n  \"home.title\": \"Home\",\n  \"home.subtitle\": \"TODO\"\n}")
    );
    assert_eq!(done.exit_status(), 1);
}

#[test]
fn complete_dictionary_is_left_alone() {
    let keys = set_of(&["home.title", "home.subtitle"]);
    let text = "{\"home.subtitle\":\"Sub\",   \"home.title\": \"Home\"}";
    let done = reconcile(&keys, text).expect("valid dictionary");
    assert!(done.added.is_empty());
    assert_eq!(done.rewritten, None);
    assert_eq!(done.exit_status(), 0);
}

#[test]
fn no_keys_add_nothing() {
    let done = reconcile(&KeySet::new(), "{\"a\": 1}").expect("valid dictionary");
    assert!(done.added.is_empty());
    assert_eq!(done.rewritten, None);
    assert_eq!(done.exit_status(), 0);
}

#[test]
fn second_run_adds_nothing() {
    let keys = set_of(&["b", "a", "c"]);
    let first = reconcile(&keys, "{\"b\": \"B\"}").expect("valid dictionary");
    assert_eq!(first.added, strings(&["a", "c"]));
    let text = first.rewritten.expect("keys were added");
    let second = reconcile(&keys, &text).expect("valid dictionary");
    assert!(second.added.is_empty());
    assert_eq!(second.rewritten, None);
    assert_eq!(second.exit_status(), 0);
}

#[test]
fn new_keys_are_appended_in_ascending_order() {
    let keys = set_of(&["z", "m", "a", "k"]);
    let done = reconcile(&keys, "{\"m\": \"M\", \"b\": \"B\"}").expect("valid dictionary");
    assert_eq!(done.added, strings(&["a", "k", "z"]));
    assert_eq!(
        done.rewritten.as_deref(),
        Some("{\n  \"m\": \"M\",\n  \"b\": \"B\",\n  \"a\": \"TODO\",\n  \"k\": \"TODO\",\n  \"z\": \"TODO\"\n}")
    );
}

#[test]
fn existing_values_of_any_type_are_kept() {
    let text = "{\"n\": 12, \"list\": [1, \"two\", null], \"flag\": true, \"deep\": {\"x\": \"y\"}, \"s\": \"TODO\"}";
    let done = reconcile(&set_of(&["s", "n", "new"]), text).expect("valid dictionary");
    assert_eq!(done.added, strings(&["new"]));
    assert_eq!(
        done.rewritten.as_deref(),
        Some(
            "{\n  \"n\": 12,\n  \"list\": [\n    1,\n    \"two\",\n    null\n  ],\n  \"flag\": true,\n  \"deep\": {\n    \"x\": \"y\"\n  },\n  \"s\": \"TODO\",\n  \"new\": \"TODO\"\n}"
        )
    );
}

#[test]
fn empty_dictionary_takes_every_key() {
    let done = reconcile(&set_of(&["b", "a"]), "{}").expect("valid dictionary");
    assert_eq!(done.added, strings(&["a", "b"]));
    assert_eq!(done.rewritten.as_deref(), Some("{\n  \"a\": \"TODO\",\n  \"b\": \"TODO\"\n}"));
}

#[test]
fn keys_are_written_as_json_strings() {
    let done = reconcile(&set_of(&["say \"hi\""]), "{}").expect("valid dictionary");
    assert_eq!(done.rewritten.as_deref(), Some("{\n  \"say \\\"hi\\\"\": \"TODO\"\n}"));
}

#[test]
fn text_that_is_not_json_is_a_parse_error() {
    assert!(matches!(reconcile(&set_of(&["a"]), "not json"), Err(DictionaryError::Parse(_))));
    assert!(matches!(reconcile(&set_of(&["a"]), ""), Err(DictionaryError::Parse(_))));
    assert!(matches!(reconcile(&set_of(&["a"]), "{\"a\": }"), Err(DictionaryError::Parse(_))));
    assert!(matches!(reconcile(&KeySet::new(), "{"), Err(DictionaryError::Parse(_))));
}

#[test]
fn json_that_is_no_object_is_a_parse_error() {
    assert!(matches!(reconcile(&set_of(&["a"]), "[1, 2]"), Err(DictionaryError::Parse(_))));
    assert!(matches!(reconcile(&set_of(&["a"]), "\"a\""), Err(DictionaryError::Parse(_))));
    assert!(matches!(reconcile(&set_of(&["a"]), "null"), Err(DictionaryError::Parse(_))));
}

#[test]
fn dictionary_knows_its_keys() {
    let dictionary = Dictionary::parse("{\"a\": \"A\", \"b.c\": 1}").expect("valid dictionary");
    assert!(dictionary.contains_key("a"));
    assert!(dictionary.contains_key("b.c"));
    assert!(!dictionary.contains_key("b"));
    assert!(!dictionary.contains_key("A"));
    assert!(!dictionary.contains_key(""));
}

#[test]
fn add_missing_returns_the_added_keys_and_grows_the_dictionary() {
    let mut dictionary = Dictionary::parse("{\"b\": \"B\"}").expect("valid dictionary");
    let added = dictionary.add_missing(&set_of(&["c", "b", "a"]));
    assert_eq!(added, strings(&["a", "c"]));
    assert!(dictionary.contains_key("a"));
    assert!(dictionary.contains_key("b"));
    assert!(dictionary.contains_key("c"));
    assert_eq!(
        dictionary.to_pretty().expect("serializable"),
        "{\n  \"b\": \"B\",\n  \"a\": \"TODO\",\n  \"c\": \"TODO\"\n}"
    );
    let again = dictionary.add_missing(&set_of(&["c", "b", "a"]));
    assert!(again.is_empty());
    assert_eq!(
        dictionary.to_pretty().expect("serializable"),
        "{\n  \"b\": \"B\",\n  \"a\": \"TODO\",\n  \"c\": \"TODO\"\n}"
    );
}

#[test]
fn to_pretty_indents_by_two_spaces() {
    let dictionary = Dictionary::parse("{\"a\":\"A\",\"b\":{\"c\":[]}}").expect("valid dictionary");
    assert_eq!(
        dictionary.to_pretty().expect("serializable"),
        "{\n  \"a\": \"A\",\n  \"b\": {\n    \"c\": []\n  }\n}"
    );
    assert_eq!(Dictionary::parse("{}").expect("valid").to_pretty().expect("serializable"), "{}");
}

#[test]
fn exit_status_tells_whether_keys_were_added() {
    let nothing = Reconciliation { added: Vec::new(), rewritten: None };
    assert_eq!(nothing.exit_status(), STATUS_COMPLETE);
    let something = Reconciliation { added: strings(&["a"]), rewritten: Some("{}".to_string()) };
    assert_eq!(something.exit_status(), STATUS_ADDED);
    assert_eq!(STATUS_COMPLETE, 0);
    assert_eq!(STATUS_ADDED, 1);
    assert_ne!(STATUS_FAILED, STATUS_COMPLETE);
    assert_ne!(STATUS_FAILED, STATUS_ADDED);
}

#[test]
fn placeholder_is_todo() {
    assert_eq!(PLACEHOLDER, "TODO");
}
