use gloomy::Key;
use gloomy::Path;
use gloomy::Value;
use gloomy::get_single_digit_index;
use gloomy::gloom;

fn text(s: &str) -> Vec<u8> {
    s.as_bytes().to_vec()
}

fn tpath(s: &str) -> Path {
    Path::Text(text(s))
}

/// root = {"a": {"b": [10, 20, 30]}}
fn nested_root() -> Value {
    Value::Mapping(vec![(
        Key::Text(text("a")),
        Value::Mapping(vec![(
            Key::Text(text("b")),
            Value::Sequence(vec![Value::Num(10), Value::Num(20), Value::Num(30)]),
        )]),
    )])
}

#[test]
fn test_get_single_digit_index() {
    for i in '0'..='9' {
        let s = i.to_string();
        assert_eq!(
            get_single_digit_index(s.as_bytes()),
            Some(i as usize - '0' as usize)
        );
    }
    assert_eq!(get_single_digit_index("a".as_bytes()), None);
}

#[test]
fn test_get_nested_dotted_path() {
    let root = nested_root();
    let got = gloom(&root, &tpath("a.b.1"), &Value::Null);
    assert_eq!(got, &Value::Num(20));
}

#[test]
fn test_get_cannot_descend_into_leaf() {
    let root = Value::Mapping(vec![(Key::Text(text("a")), Value::Num(1))]);
    let default = Value::Text(text("X"));
    let got = gloom(&root, &tpath("a.b"), &default);
    assert_eq!(got, &default);
}

#[test]
fn test_get_explicit_path_integer_indexes() {
    let root = Value::Mapping(vec![(
        Key::Text(text("a")),
        Value::Sequence(vec![Value::Num(5), Value::Num(6)]),
    )]);
    let path = Path::Keys(vec![Key::Text(text("a")), Key::Num(0)]);
    let got = gloom(&root, &path, &Value::Null);
    assert_eq!(got, &Value::Num(5));
}

#[test]
fn test_get_explicit_digit_text_is_not_an_index() {
    let root = Value::Mapping(vec![(
        Key::Text(text("a")),
        Value::Sequence(vec![Value::Num(5), Value::Num(6)]),
    )]);
    let path = Path::Keys(vec![Key::Text(text("a")), Key::Text(text("0"))]);
    let default = Value::Text(text("missing"));
    let got = gloom(&root, &path, &default);
    assert_eq!(got, &default);
}

#[test]
fn test_get_null_root_returns_default() {
    let default = Value::Num(7);
    assert_eq!(gloom(&Value::Null, &tpath("a.b"), &default), &default);
    assert_eq!(
        gloom(&Value::Null, &Path::Keys(vec![Key::Num(0)]), &default),
        &default
    );
    assert_eq!(gloom(&Value::Null, &Path::Keys(vec![]), &default), &default);
}

#[test]
fn test_get_resolved_ignores_default() {
    let root = nested_root();
    let d1 = Value::Num(-1);
    let d2 = Value::Text(text("other"));
    let got1 = gloom(&root, &tpath("a.b.2"), &d1);
    let got2 = gloom(&root, &tpath("a.b.2"), &d2);
    assert_eq!(got1, &Value::Num(30));
    assert_eq!(got1, got2);
}

#[test]
fn test_get_miss_returns_default() {
    let root = nested_root();
    let default = Value::Num(404);
    assert_eq!(gloom(&root, &tpath("a.z"), &default), &default);
    assert_eq!(gloom(&root, &tpath("a.b.9"), &default), &default);
    assert_eq!(gloom(&root, &tpath("a.b.1.c"), &default), &default);
}

#[test]
fn test_get_single_digit_fast_path_on_mapping() {
    // an integer-keyed mapping entry is found by the fast path
    let root = Value::Mapping(vec![(Key::Num(1), Value::Text(text("one")))]);
    assert_eq!(gloom(&root, &tpath("1"), &Value::Null), &Value::Text(text("one")));
    // a text digit key is still found once the fast path fails
    let root2 = Value::Mapping(vec![(Key::Text(text("1")), Value::Num(11))]);
    assert_eq!(gloom(&root2, &tpath("1"), &Value::Null), &Value::Num(11));
}

#[test]
fn test_get_multi_digit_segment_is_text_on_mapping() {
    // a multi-digit segment never tries the integer key
    let root = Value::Mapping(vec![(Key::Num(12), Value::Num(1))]);
    let default = Value::Null;
    assert_eq!(gloom(&root, &tpath("12"), &default), &default);
    let root2 = Value::Mapping(vec![(Key::Text(text("12")), Value::Num(2))]);
    assert_eq!(gloom(&root2, &tpath("12"), &default), &Value::Num(2));
}

#[test]
fn test_get_multi_digit_segment_indexes_sequence() {
    let items: Vec<Value> = (0i64..15).map(Value::Num).collect();
    let root = Value::Sequence(items);
    assert_eq!(gloom(&root, &tpath("12"), &Value::Null), &Value::Num(12));
}

#[test]
fn test_get_attribute_of_object() {
    let root = Value::Object(vec![
        (text("name"), Value::Text(text("ada"))),
        (text("age"), Value::Num(36)),
    ]);
    assert_eq!(gloom(&root, &tpath("age"), &Value::Null), &Value::Num(36));
    let path = Path::Keys(vec![Key::Text(text("name"))]);
    assert_eq!(gloom(&root, &path, &Value::Null), &Value::Text(text("ada")));
}

#[test]
fn test_get_empty_path_is_one_empty_segment() {
    let root = Value::Mapping(vec![(Key::Text(text("")), Value::Num(5))]);
    assert_eq!(gloom(&root, &tpath(""), &Value::Null), &Value::Num(5));
    let root2 = Value::Mapping(vec![(Key::Text(text("a")), Value::Num(1))]);
    let default = Value::Num(-9);
    assert_eq!(gloom(&root2, &tpath(""), &default), &default);
}

#[test]
fn test_get_explicit_integer_key_on_mapping() {
    let root = Value::Mapping(vec![(Key::Num(1), Value::Text(text("one")))]);
    let path = Path::Keys(vec![Key::Num(1)]);
    assert_eq!(gloom(&root, &path, &Value::Null), &Value::Text(text("one")));
}

#[test]
fn test_get_empty_explicit_path_returns_root() {
    let root = Value::Num(3);
    let path = Path::Keys(vec![]);
    assert_eq!(gloom(&root, &path, &Value::Null), &Value::Num(3));
}

#[test]
fn test_get_negative_explicit_index_misses() {
    let root = Value::Sequence(vec![Value::Num(1), Value::Num(2)]);
    let path = Path::Keys(vec![Key::Num(-1)]);
    let default = Value::Num(0);
    assert_eq!(gloom(&root, &path, &default), &default);
}
