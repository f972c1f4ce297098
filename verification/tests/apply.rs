use otp::json::{insert_entry, Value};
use otp::operation::{ElemKind, OtError, Operation};

fn to_value(v: &serde_json::Value) -> Value {
    match v {
        serde_json::Value::Null => Value::Null,
        serde_json::Value::Bool(b) => Value::Bool(*b),
        serde_json::Value::Number(n) => Value::Number(n.to_string()),
        serde_json::Value::String(s) => Value::String(s.clone()),
        serde_json::Value::Array(a) => Value::Array(a.iter().map(to_value).collect()),
        serde_json::Value::Object(o) => {
            let mut entries = Vec::new();
            for (k, x) in o {
                insert_entry(&mut entries, k.clone(), to_value(x));
            }
            Value::Object(entries)
        }
    }
}

fn j(text: &str) -> Value {
    to_value(&serde_json::from_str::<serde_json::Value>(text).expect("valid json"))
}

fn splice(path: &str, index: usize, remove: usize, insert: &str) -> Operation {
    Operation::Splice {
        path: path.to_string(),
        index,
        remove,
        insert: j(insert),
    }
}

fn assign(path: &str, value: Option<&str>) -> Operation {
    Operation::Assign {
        path: path.to_string(),
        value: value.map(j),
    }
}

#[test]
fn operation_apply_splice_op_number() {
    let op = splice("x", 1, 0, "[42, 43]");
    let val = j(r#"{ "x": [1,2,3,4], "z": "z"}"#);
    let res = op.apply_to(val);
    let exp = j(r#"{ "x": [1, 42, 43, 2, 3, 4], "z": "z"}"#);
    match res {
        Ok(v) => assert_eq!(v, exp),
        Err(e) => panic!("{}", e.to_string()),
    }
}

#[test]
fn operation_apply_splice_op_inconsistent_types() {
    let op = splice("x", 1, 0, r#"["42", "43"]"#);
    let val = j(r#"{ "x": [1,2,3,4], "z": "z"}"#);
    let res = op.apply_to(val);
    match res {
        Ok(_) => panic!(),
        Err(e) => match e {
            OtError::Type(_) => (),
            _ => panic!(),
        },
    }
}

#[test]
fn operation_apply_splice_op_str() {
    let op = splice("x", 1, 0, r#"["42", "43"]"#);
    let val = j(r#"{ "x": ["a", "b", "c", "d"], "z": "z"}"#);
    let exp = j(r#"{ "x": ["a", "42", "43", "b", "c", "d"], "z": "z"}"#);
    assert_eq!(Some(exp), op.apply_to(val).ok())
}

#[test]
fn operation_apply_splice_op_remove() {
    let op = splice("x", 1, 2, "[42, 43]");
    let val = j(r#"{ "x": [1,2,3,4], "z": "z"}"#);
    let exp = j(r#"{ "x": [1, 42, 43, 4], "z": "z"}"#);
    assert_eq!(Some(exp), op.apply_to(val).ok())
}

#[test]
fn apply_set_op_path_overwrite() {
    let op = assign("x", Some(r#"{"y": 7}"#));
    let val = j(r#"{ "x": {"a": 42}, "z": "z"}"#);
    let res = op.apply_to(val);
    let exp = j(r#"{ "x": {"y": 7}, "z": "z"}"#);
    assert_eq!(res.ok(), Some(exp));
}

#[test]
fn apply_set_op_path_insert() {
    let op = assign("x.y", Some(r#"{"z": 7}"#));
    let val = j(r#"{ "x": {"a": 42, "y": {}}, "z": "z"}"#);
    let res = op.apply_to(val);
    let exp = j(r#"{ "x": {"a": 42, "y": {"z": 7}}, "z": "z"}"#);
    assert_eq!(res.ok(), Some(exp));
}

#[test]
fn apply_set_op_path_delete() {
    let op = assign("x.a", None);
    let val = j(r#"{ "x": {"a": 42}, "z": "z"}"#);
    let res = op.apply_to(val);
    let exp = j(r#"{ "x": {}, "z": "z"}"#);
    assert_eq!(res.ok(), Some(exp));
}

#[test]
fn assign_root_without_value_is_refused() {
    let op = assign("", None);
    match op.apply_to(j(r#"{"a": 1}"#)) {
        Err(OtError::Operation(m)) => assert_eq!(
            m,
            "set operation with an empty path and no value is undefined"
        ),
        _ => panic!("expected an operation error"),
    }
}

#[test]
fn assign_root_replaces_document() {
    let op = assign("", Some(r#"{"name": "n", "num": 3}"#));
    assert_eq!(
        op.apply_to(j(r#"{"other": true}"#)).ok(),
        Some(j(r#"{"name": "n", "num": 3}"#))
    );
    assert_eq!(
        op.apply_to(j("{}")).ok(),
        Some(j(r#"{"name": "n", "num": 3}"#))
    );
}

#[test]
fn assign_partial_overwrite_keeps_other_members() {
    let op = assign("num", Some("5"));
    let val = j(r#"{"name": "a", "num": 1, "maybe": false}"#);
    assert_eq!(
        op.apply_to(val).ok(),
        Some(j(r#"{"name": "a", "num": 5, "maybe": false}"#))
    );
}

#[test]
fn assign_inserts_new_key_in_key_order() {
    let op = assign("b", Some("2"));
    let res = op.apply_to(j(r#"{"a": 1, "c": 3}"#)).ok().unwrap();
    match res {
        Value::Object(entries) => {
            let keys: Vec<&str> = entries.iter().map(|(k, _)| k.as_str()).collect();
            assert_eq!(keys, vec!["a", "b", "c"]);
        }
        _ => panic!("expected an object"),
    }
}

#[test]
fn assign_missing_parent_is_key_error() {
    let op = assign("x.y.z", Some("1"));
    match op.apply_to(j(r#"{"x": {}}"#)) {
        Err(OtError::Key(k)) => assert_eq!(k, "y"),
        _ => panic!("expected a key error"),
    }
}

#[test]
fn assign_into_non_object_is_type_error() {
    let op = assign("x.y", Some("1"));
    match op.apply_to(j(r#"{"x": [1, 2]}"#)) {
        Err(OtError::Type(m)) => assert_eq!(m, "value is expected to be a Value::Object"),
        _ => panic!("expected a type error"),
    }
}

#[test]
fn splice_out_of_range_is_index_error() {
    let op = splice("x", 3, 2, "[5]");
    match op.apply_to(j(r#"{"x": [1, 2, 3, 4]}"#)) {
        Err(e) => {
            assert!(matches!(e, OtError::Index(_)));
            assert_eq!(e.to_string(), "IndexError: len 4 <= index 3 + remove 2");
        }
        _ => panic!("expected an index error"),
    }
}

#[test]
fn splice_insert_not_array_is_refused() {
    let op = splice("x", 0, 0, "5");
    assert!(matches!(
        op.apply_to(j(r#"{"x": [1]}"#)),
        Err(OtError::ValueIsNotArray())
    ));
}

#[test]
fn splice_target_not_array_is_refused() {
    let op = splice("x", 0, 0, "[5]");
    assert!(matches!(
        op.apply_to(j(r#"{"x": 1}"#)),
        Err(OtError::ValueIsNotArray())
    ));
}

#[test]
fn splice_missing_array_is_key_error() {
    let op = splice("y", 0, 0, "[5]");
    match op.apply_to(j(r#"{"x": [1]}"#)) {
        Err(OtError::Key(k)) => assert_eq!(k, "y"),
        _ => panic!("expected a key error"),
    }
}

#[test]
fn splice_mixed_numbers_is_type_error() {
    let op = splice("x", 0, 0, r#"[5, "a"]"#);
    match op.apply_to(j(r#"{"x": [1, 2]}"#)) {
        Err(e) => assert_eq!(
            e.to_string(),
            "TypeError: not all array elements of type Number"
        ),
        _ => panic!("expected a type error"),
    }
}

#[test]
fn splice_objects_need_ids() {
    let with_ids = splice("x", 1, 0, r#"[{"id": "c"}]"#);
    let val = j(r#"{"x": [{"id": "a"}, {"id": "b"}]}"#);
    assert_eq!(
        with_ids.apply_to(val).ok(),
        Some(j(r#"{"x": [{"id": "a"}, {"id": "c"}, {"id": "b"}]}"#))
    );
    let without_id = splice("x", 0, 0, r#"[{"name": "c"}]"#);
    assert!(matches!(
        without_id.apply_to(j(r#"{"x": [{"id": "a"}]}"#)),
        Err(OtError::NoId())
    ));
}

#[test]
fn splice_into_empty_array() {
    let op = splice("x", 0, 0, "[1, 2]");
    assert_eq!(op.apply_to(j(r#"{"x": []}"#)).ok(), Some(j(r#"{"x": [1, 2]}"#)));
    let mixed = splice("x", 0, 0, r#"[1, "a"]"#);
    match mixed.apply_to(j(r#"{"x": []}"#)) {
        Err(e) => assert_eq!(e.to_string(), "TypeError: not all array elements of type Number"),
        _ => panic!("expected a type error"),
    }
    let no_id = splice("x", 0, 0, r#"[{"v": 1}]"#);
    match no_id.apply_to(j(r#"{"x": []}"#)) {
        Err(e) => assert_eq!(e.to_string(), "NoId"),
        _ => panic!("expected a missing id"),
    }
    let nested = splice("x", 0, 0, "[[1]]");
    match nested.apply_to(j(r#"{"x": []}"#)) {
        Err(e) => assert_eq!(e.to_string(), "TypeError: arrays have different types"),
        _ => panic!("expected a type error"),
    }
}

#[test]
fn splice_remove_only_needs_no_type_check() {
    let op = splice("x", 0, 2, "[]");
    assert_eq!(
        op.apply_to(j(r#"{"x": [true, "a", 3]}"#)).ok(),
        Some(j(r#"{"x": [3]}"#))
    );
}

#[test]
fn splice_nested_path() {
    let op = splice("a.b", 1, 1, r#"[true]"#);
    assert_eq!(
        op.apply_to(j(r#"{"a": {"b": [false, false], "c": 1}}"#)).ok(),
        Some(j(r#"{"a": {"b": [false, true], "c": 1}}"#))
    );
}

#[test]
fn constructors() {
    assert!(matches!(
        Operation::try_new_set("".to_string(), None),
        Err(OtError::InvalidSetOp())
    ));
    assert_eq!(
        Operation::try_new_set("a".to_string(), None).ok(),
        Some(assign("a", None))
    );
    assert_eq!(
        Operation::new_set("a".to_string(), j("1")),
        assign("a", Some("1"))
    );
    assert!(matches!(
        Operation::try_new_splice("a".to_string(), 0, 0, j("1")),
        Err(OtError::ValueIsNotArray())
    ));
    assert_eq!(
        Operation::try_new_splice("a".to_string(), 1, 2, j("[3]")).ok(),
        Some(splice("a", 1, 2, "[3]"))
    );
    assert_eq!(splice("a.b", 0, 0, "[]").path(), "a.b");
    assert!(assign("user.role", None).path_contains("role"));
    assert!(!assign("user.name", None).path_contains("role"));
}

#[test]
fn error_texts() {
    assert_eq!(OtError::InvalidSetOp().to_string(), "NoId");
    assert_eq!(OtError::Key("k".to_string()).to_string(), "KeyError: k");
    assert_eq!(OtError::Rebase("r".to_string()).to_string(), "Rebase: r");
    assert_eq!(OtError::Path("p".to_string()).to_string(), "PathError: p");
    assert_eq!(OtError::ValueIsNotArray().to_string(), "ValueIsNotArray");
    let _ = ElemKind::Bool;
}

#[test]
fn value_equality_and_copies() {
    let a = j(r#"{"a": [1, {"b": null}], "c": "x"}"#);
    let b = j(r#"{"c": "x", "a": [1, {"b": null}]}"#);
    assert!(a.same_as(&b));
    assert!(!a.same_as(&j(r#"{"a": [1, {"b": false}], "c": "x"}"#)));
    assert_eq!(a.duplicate(), a);
}

#[test]
fn splice_round_trip_restores_document() {
    let doc = j(r#"{"a": {"x": [1, 2, 3]}, "b": true}"#);
    let insert = splice("a.x", 1, 0, "[7, 8]");
    let inserted = insert.apply_to(doc.duplicate()).ok().expect("insert applies");
    assert_eq!(inserted, j(r#"{"a": {"x": [1, 7, 8, 2, 3]}, "b": true}"#));
    let undo = splice("a.x", 1, 2, "[]");
    assert_eq!(undo.apply_to(inserted).ok(), Some(doc));
}
