use metric_calculator::index::TextMap;
use metric_calculator::json::{text_items, text_items_readable, text_member, JsonValue};
use metric_calculator::text::{join, split_on, text_eq};

fn s(x: &str) -> String {
    x.to_string()
}

fn obj(members: Vec<(&str, JsonValue)>) -> JsonValue {
    JsonValue::Object(members.into_iter().map(|(k, v)| (k.to_string(), v)).collect())
}

#[test]
fn split_on_commas_gives_each_node() {
    assert_eq!(split_on("10.0.0.1,10.0.0.2", ','), vec![s("10.0.0.1"), s("10.0.0.2")]);
}

#[test]
fn split_on_keeps_empty_pieces() {
    assert_eq!(split_on("", ','), vec![s("")]);
    assert_eq!(split_on("a,,b,", ','), vec![s("a"), s(""), s("b"), s("")]);
    assert_eq!(split_on("no-separator", '.'), vec![s("no-separator")]);
}

#[test]
fn split_on_dot_gives_namespace_and_name() {
    let parts = split_on("default.web-7f9c", '.');
    assert_eq!(parts, vec![s("default"), s("web-7f9c")]);
}

#[test]
fn split_on_matches_std_split() {
    for text in ["x.y.z", ".", "..", "abc", "é.ü"] {
        let expected: Vec<String> = text.split('.').map(|p| p.to_string()).collect();
        assert_eq!(split_on(text, '.'), expected);
    }
}

#[test]
fn join_puts_separator_between_neighbours() {
    assert_eq!(join(&vec![s("a"), s("b"), s("c")], "\n"), "a\nb\nc");
    assert_eq!(join(&vec![s("only")], "\n"), "only");
    assert_eq!(join(&vec![], "\n"), "");
}

#[test]
fn join_of_split_gives_back_the_text() {
    for text in ["a,b,,c", "", ",", "plain"] {
        assert_eq!(join(&split_on(text, ','), ","), text);
    }
}

#[test]
fn text_eq_compares_characters() {
    assert!(text_eq("upstream", "upstream"));
    assert!(!text_eq("upstream", "upstrea"));
    assert!(!text_eq("rr", "rs"));
    assert!(text_eq("", ""));
}

#[test]
fn get_finds_members_and_gives_none_for_null() {
    let v = obj(vec![("name", JsonValue::Str(s("c1"))), ("n", JsonValue::Number(s("3")))]);
    assert!(matches!(v.get("name"), Some(JsonValue::Str(x)) if x == "c1"));
    assert!(v.get("missing").is_none());
    assert!(JsonValue::Null.get("name").is_none());
    assert!(JsonValue::Array(vec![]).get("name").is_none());
}

#[test]
fn text_member_reads_strings_only() {
    let v = obj(vec![("ip", JsonValue::Str(s("10.1.2.3"))), ("port", JsonValue::Number(s("80")))]);
    assert_eq!(text_member(&v, "ip"), Some(s("10.1.2.3")));
    assert_eq!(text_member(&v, "port"), None);
    assert_eq!(text_member(&v, "absent"), None);
}

#[test]
fn as_str_and_as_array_tell_variants_apart() {
    let a = JsonValue::Array(vec![JsonValue::Bool(true)]);
    assert_eq!(a.as_array().map(|x| x.len()), Some(1));
    assert!(a.as_str().is_none());
    let t = JsonValue::Str(s("x"));
    assert_eq!(t.as_str(), Some(&s("x")));
    assert!(t.as_array().is_none());
}

#[test]
fn text_items_of_string_array() {
    let v = JsonValue::Array(vec![JsonValue::Str(s("web")), JsonValue::Str(s("db"))]);
    assert!(text_items_readable(&v));
    assert_eq!(text_items(&v), vec![s("web"), s("db")]);
}

#[test]
fn text_items_of_non_array_is_empty() {
    assert!(text_items_readable(&JsonValue::Null));
    assert_eq!(text_items(&JsonValue::Null), Vec::<String>::new());
    assert_eq!(text_items(&JsonValue::Str(s("web"))), Vec::<String>::new());
}

#[test]
fn text_items_readable_rejects_non_string_element() {
    let v = JsonValue::Array(vec![JsonValue::Str(s("web")), JsonValue::Number(s("1"))]);
    assert!(!text_items_readable(&v));
}

#[test]
fn text_map_read_after_write() {
    let mut m = TextMap::new();
    assert_eq!(m.get(&s("pod")), None);
    m.insert(s("pod"), s("c1"));
    m.insert(s("other"), s("c2"));
    assert_eq!(m.get(&s("pod")), Some(&s("c1")));
    m.insert(s("pod"), s("c3"));
    assert_eq!(m.get(&s("pod")), Some(&s("c3")));
    assert_eq!(m.get(&s("other")), Some(&s("c2")));
    assert_eq!(m.get(&s("nope")), None);
}
