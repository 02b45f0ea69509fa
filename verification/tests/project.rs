use phpick::json::JsonValue;
use phpick::project::{find_project_root, pinned_from_doc, pinned_version};
use std::cell::RefCell;

#[test]
fn pinned_version_is_read_from_composer_json() {
    let raw = r#"{"name":"a/b","config":{"platform":{"php":"8.4.15"}}}"#;
    assert_eq!(pinned_version(raw), Some("8.4".to_string()));
    let raw = r#"{"config":{"sort-packages":true,"platform":{"ext-intl":"1","php":"7.4"}}}"#;
    assert_eq!(pinned_version(raw), Some("7.4".to_string()));
}

#[test]
fn pinned_version_absent() {
    assert_eq!(pinned_version("not json"), None);
    assert_eq!(pinned_version("{}"), None);
    assert_eq!(pinned_version(r#"{"config":{}}"#), None);
    assert_eq!(pinned_version(r#"{"config":{"platform":{}}}"#), None);
    assert_eq!(pinned_version(r#"{"config":{"platform":{"php":8.4}}}"#), None);
    assert_eq!(pinned_version(r#"{"config":{"platform":{"php":"8"}}}"#), None);
    assert_eq!(pinned_version(r#"{"config":[1,2]}"#), None);
}

#[test]
fn duplicate_keys_keep_the_last_value() {
    let raw = r#"{"config":{"platform":{"php":"7.1","php":"8.2.3"}}}"#;
    assert_eq!(pinned_version(raw), Some("8.2".to_string()));
}

#[test]
fn nearest_directory_with_composer_json_is_the_root() {
    let asked = RefCell::new(Vec::<usize>::new());
    let r = find_project_root(5, |i: usize| {
        asked.borrow_mut().push(i);
        i == 2 || i == 4
    });
    assert_eq!(r, Some(2));
    assert_eq!(*asked.borrow(), vec![0, 1, 2]);
    assert_eq!(find_project_root(3, |_i: usize| false), None);
    assert_eq!(find_project_root(0, |_i: usize| true), None);
    assert_eq!(find_project_root(1, |_i: usize| true), Some(0));
}

fn obj(members: Vec<(&str, JsonValue)>) -> JsonValue {
    JsonValue::Object(members.into_iter().map(|(k, v)| (k.to_string(), v)).collect())
}

#[test]
fn pinned_version_of_a_parsed_document() {
    let doc = obj(vec![("config", obj(vec![("platform", obj(vec![("php", JsonValue::Str("8.3.7".to_string()))]))]))]);
    assert_eq!(pinned_from_doc(&doc), Some("8.3".to_string()));
    let doc = obj(vec![("config", obj(vec![("platform", obj(vec![("php", JsonValue::Number("8".to_string()))]))]))]);
    assert_eq!(pinned_from_doc(&doc), None);
    assert_eq!(pinned_from_doc(&obj(vec![])), None);
    assert_eq!(pinned_from_doc(&JsonValue::Null), None);
}
