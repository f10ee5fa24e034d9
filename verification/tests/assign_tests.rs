use gloomy::AssignError;
use gloomy::Key;
use gloomy::Path;
use gloomy::Value;
use gloomy::assign;
use gloomy::assign_path_str;
use gloomy::assign_path_tuple;
use gloomy::gloom;

fn text(s: &str) -> Vec<u8> {
    s.as_bytes().to_vec()
}

fn tpath(s: &str) -> Path {
    Path::Text(text(s))
}

/// root = {"a": {"b": [10, 20, 30]}}
fn nested_root() -> Value {
    Value::Mapping(vec![(
        Key::Text(text("a")),
        Value::Mapping(vec![(
            Key::Text(text("b")),
            Value::Sequence(vec![Value::Num(10), Value::Num(20), Value::Num(30)]),
        )]),
    )])
}

#[test]
fn test_assign_null_root_is_illegal() {
    assert_eq!(
        assign(Value::Null, &tpath("a.b"), Value::Num(1)),
        Err(AssignError::IllegalRoot)
    );
    assert_eq!(
        assign(Value::Null, &Path::Keys(vec![Key::Num(0)]), Value::Num(1)),
        Err(AssignError::IllegalRoot)
    );
    assert_eq!(
        assign_path_str(Value::Null, b"x", Value::Null),
        Err(AssignError::IllegalRoot)
    );
    assert_eq!(
        assign_path_tuple(Value::Null, &vec![], Value::Null),
        Err(AssignError::IllegalRoot)
    );
}

#[test]
fn test_assign_then_get_round_trip() {
    let root = nested_root();
    let root2 = assign(root, &tpath("a.b.1"), Value::Num(99)).unwrap();
    assert_eq!(gloom(&root2, &tpath("a.b.1"), &Value::Null), &Value::Num(99));
    assert_eq!(gloom(&root2, &tpath("a.b.0"), &Value::Null), &Value::Num(10));
    assert_eq!(gloom(&root2, &tpath("a.b.2"), &Value::Null), &Value::Num(30));
}

#[test]
fn test_assign_new_mapping_key_appends() {
    let root = Value::Mapping(vec![(Key::Text(text("a")), Value::Num(1))]);
    let root2 = assign(root, &tpath("fresh"), Value::Num(2)).unwrap();
    let expected = Value::Mapping(vec![
        (Key::Text(text("a")), Value::Num(1)),
        (Key::Text(text("fresh")), Value::Num(2)),
    ]);
    assert_eq!(root2, expected);
}

#[test]
fn test_assign_intermediate_miss_is_silent_noop() {
    let root = Value::Mapping(vec![(Key::Text(text("x")), Value::Num(1))]);
    let unchanged = Value::Mapping(vec![(Key::Text(text("x")), Value::Num(1))]);
    let root2 = assign(root, &tpath("nope.y"), Value::Num(9)).unwrap();
    assert_eq!(root2, unchanged);
    let root3 = assign(
        root2,
        &Path::Keys(vec![Key::Text(text("nope")), Key::Num(0)]),
        Value::Num(9),
    )
    .unwrap();
    assert_eq!(root3, unchanged);
}

#[test]
fn test_assign_terminal_write_rejected_on_leaf() {
    let root = Value::Mapping(vec![(Key::Text(text("a")), Value::Num(1))]);
    assert_eq!(
        assign(root, &tpath("a.b"), Value::Num(5)),
        Err(AssignError::WriteRejected)
    );
}

#[test]
fn test_assign_sequence_index_out_of_range_rejected() {
    let root = Value::Sequence(vec![Value::Num(1), Value::Num(2)]);
    assert_eq!(
        assign(root, &tpath("5"), Value::Num(9)),
        Err(AssignError::WriteRejected)
    );
}

#[test]
fn test_assign_single_digit_terminal_on_mapping_stores_integer_key() {
    let root = Value::Mapping(vec![(Key::Text(text("m")), Value::Mapping(vec![]))]);
    let root2 = assign(root, &tpath("m.1"), Value::Num(7)).unwrap();
    assert_eq!(gloom(&root2, &tpath("m.1"), &Value::Null), &Value::Num(7));
    let by_key = Path::Keys(vec![Key::Text(text("m")), Key::Num(1)]);
    assert_eq!(gloom(&root2, &by_key, &Value::Null), &Value::Num(7));
}

#[test]
fn test_assign_multi_digit_terminal_on_mapping_stores_text_key() {
    let root = Value::Mapping(vec![]);
    let root2 = assign(root, &tpath("12"), Value::Num(3)).unwrap();
    let expected = Value::Mapping(vec![(Key::Text(text("12")), Value::Num(3))]);
    assert_eq!(root2, expected);
}

#[test]
fn test_assign_attribute_of_object() {
    let root = Value::Object(vec![(text("name"), Value::Text(text("ada")))]);
    let root2 = assign(root, &tpath("name"), Value::Text(text("grace"))).unwrap();
    assert_eq!(
        gloom(&root2, &tpath("name"), &Value::Null),
        &Value::Text(text("grace"))
    );
    let root3 = assign(root2, &tpath("age"), Value::Num(36)).unwrap();
    let expected = Value::Object(vec![
        (text("name"), Value::Text(text("grace"))),
        (text("age"), Value::Num(36)),
    ]);
    assert_eq!(root3, expected);
}

#[test]
fn test_assign_explicit_path_round_trip() {
    let root = Value::Mapping(vec![(
        Key::Text(text("a")),
        Value::Sequence(vec![Value::Num(5), Value::Num(6)]),
    )]);
    let path = Path::Keys(vec![Key::Text(text("a")), Key::Num(0)]);
    let root2 = assign(root, &path, Value::Num(50)).unwrap();
    assert_eq!(gloom(&root2, &path, &Value::Null), &Value::Num(50));
}

#[test]
fn test_assign_explicit_digit_text_rejected_on_sequence() {
    let root = Value::Sequence(vec![Value::Num(5), Value::Num(6)]);
    let path = Path::Keys(vec![Key::Text(text("0"))]);
    assert_eq!(
        assign(root, &path, Value::Num(1)),
        Err(AssignError::WriteRejected)
    );
}

#[test]
fn test_assign_explicit_integer_key_on_mapping() {
    let root = Value::Mapping(vec![(Key::Text(text("a")), Value::Num(1))]);
    let path = Path::Keys(vec![Key::Num(3)]);
    let root2 = assign(root, &path, Value::Num(30)).unwrap();
    let expected = Value::Mapping(vec![
        (Key::Text(text("a")), Value::Num(1)),
        (Key::Num(3), Value::Num(30)),
    ]);
    assert_eq!(root2, expected);
    assert_eq!(gloom(&root2, &tpath("3"), &Value::Null), &Value::Num(30));
}

#[test]
fn test_assign_empty_explicit_path_is_noop() {
    let root = Value::Num(3);
    let root2 = assign(root, &Path::Keys(vec![]), Value::Num(9)).unwrap();
    assert_eq!(root2, Value::Num(3));
}

#[test]
fn test_assign_negative_explicit_index_rejected() {
    let root = Value::Sequence(vec![Value::Num(1)]);
    let path = Path::Keys(vec![Key::Num(-1)]);
    assert_eq!(
        assign(root, &path, Value::Num(2)),
        Err(AssignError::WriteRejected)
    );
}
