use otp::avers::{apply, op_ot, rebase, try_new_set, try_new_splice, Object, OperationError, PatchError};
use otp::json::{insert_entry, Value};
use otp::model::{ObjectType, Patch};
use otp::operation::Operation;
use otp::path::is_reachable;

fn to_value(v: &serde_json::Value) -> Value {
    match v {
        serde_json::Value::Null => Value::Null,
        serde_json::Value::Bool(b) => Value::Bool(*b),
        serde_json::Value::Number(n) => Value::Number(n.to_string()),
        serde_json::Value::String(s) => Value::String(s.clone()),
        serde_json::Value::Array(a) => Value::Array(a.iter().map(to_value).collect()),
        serde_json::Value::Object(o) => {
            let mut entries = Vec::new();
            for (k, x) in o {
                insert_entry(&mut entries, k.clone(), to_value(x));
            }
            Value::Object(entries)
        }
    }
}

fn j(text: &str) -> Value {
    to_value(&serde_json::from_str::<serde_json::Value>(text).expect("valid json"))
}

fn splice(path: &str, index: usize, remove: usize, insert: &str) -> Operation {
    Operation::Splice {
        path: path.to_string(),
        index,
        remove,
        insert: j(insert),
    }
}

fn assign(path: &str, value: &str) -> Operation {
    Operation::Assign {
        path: path.to_string(),
        value: Some(j(value)),
    }
}

fn patch(revision_id: i64, operation: Operation) -> Patch {
    Patch::new_revision(revision_id, "test".to_string(), "test".to_string(), operation)
}

#[test]
fn patching_is_reachable_empty_path() {
    let value = j("null");
    assert!(is_reachable("", &value));
}

#[test]
fn patching_is_reachable_for_primitive_values() {
    let value = j("null");
    assert!(!is_reachable("x", &value));

    let value = j(r#""""#);
    assert!(!is_reachable("x", &value));

    let value = j("1");
    assert!(!is_reachable("x", &value));

    let value = j("true");
    assert!(!is_reachable("x", &value));
}

#[test]
fn patching_is_reachable_for_object() {
    let value = j(r#"{"id": "foo", "bar": "baz", "xx": {"yy": "zz"}}"#);
    assert!(is_reachable("bar", &value));
    assert!(is_reachable("xx.yy", &value));
    assert!(!is_reachable("foo", &value));
    assert!(!is_reachable("abc", &value));
}

#[test]
fn patching_is_reachable_for_array() {
    let value = j("[]");
    assert!(!is_reachable("foo.bar", &value));

    let value = j("[{}]");
    assert!(!is_reachable("foo.bar", &value));

    let value = j(r#"[{"id": "some_id", "bar": "baz"}]"#);
    assert!(is_reachable("some_id.bar", &value));
    let value = j(r#"[{"id": "some_id", "bar": "baz"}]"#);
    assert!(!is_reachable("bar.baz", &value));

    let value = j(r#"["a", "b", "c"]"#);
    assert!(!is_reachable("c", &value));
}

#[test]
fn patching_apply_splice_op_number() {
    let op = splice("x", 1, 0, "[42, 43]");
    let val = j(r#"{ "x": [1,2,3,4], "z": "z"}"#);
    let res = apply(val, op);
    let exp = j(r#"{ "x": [1, 42, 43, 2, 3, 4], "z": "z"}"#);
    match res {
        Ok(v) => assert_eq!(v, exp),
        Err(e) => panic!("{}", e.to_string()),
    }
}

#[test]
fn patching_apply_splice_op_inconsistent_types() {
    let op = splice("x", 1, 0, r#"["42", "43"]"#);
    let val = j(r#"{ "x": [1,2,3,4], "z": "z"}"#);
    let res = apply(val, op);
    match res {
        Ok(_) => panic!(),
        Err(e) => match e {
            PatchError::InconsistentTypes() => (),
            _ => panic!(),
        },
    }
}

#[test]
fn patching_apply_splice_op_str() {
    let op = splice("x", 1, 0, r#"["42", "43"]"#);
    let val = j(r#"{ "x": ["a", "b", "c", "d"], "z": "z"}"#);
    let exp = j(r#"{ "x": ["a", "42", "43", "b", "c", "d"], "z": "z"}"#);
    assert_eq!(Some(exp), apply(val, op).ok())
}

#[test]
fn patching_apply_splice_op_remove() {
    let op = splice("x", 1, 2, "[42, 43]");
    let val = j(r#"{ "x": [1,2,3,4], "z": "z"}"#);
    let exp = j(r#"{ "x": [1, 42, 43, 4], "z": "z"}"#);
    assert_eq!(Some(exp), apply(val, op).ok())
}

#[test]
fn patching_rebase_splice_through_same_path_splice() {
    let base_val = j(r#"{"array": [1, 2, 3, 4, 5]}"#);
    let op1 = splice("array", 1, 2, "[10, 20]");
    let op2 = splice("array", 3, 1, "[30, 40]");
    let rebased = rebase(base_val, op2, vec![patch(1, op1)]);
    // after op1 the array is [1, 10, 20, 4, 5]: the element op2 removes is at 3
    let expected = splice("array", 3, 1, "[30, 40]");
    assert_eq!(Some(expected), rebased)
}

#[test]
fn patching_rebase_splice_on_array() {
    let base_val = j(r#"{"name": "test", "array": ["a", "b", "c", "d"]}"#);
    let op1 = assign("name", r#""updated""#);
    let op2 = splice("array", 1, 1, r#"["x", "y"]"#);
    assert_eq!(
        Some(op2.duplicate()),
        rebase(base_val, op2, vec![patch(1, op1)])
    )
}

#[test]
fn patching_op_ot_set_set_base_prefixed_by_op() {
    let nested_content = j(r#"{"user": {"name": "test", "age": 30}}"#);
    let op1 = assign("user", r#"{"name": "changed", "age": 31}"#);
    let op2 = assign("user.name", r#""another name""#);
    assert_eq!(Some(op2.duplicate()), op_ot(&nested_content, &op1, op2))
}

#[test]
fn patching_op_ot_set_set_op_prefixed_by_base() {
    let nested_content = j(r#"{"user": {"name": "test", "age": 30}}"#);
    let op1 = assign("user.name", r#""new name""#);
    let op2 = assign("user", r#"{"name": "another", "age": 25}"#);
    assert_eq!(op_ot(&nested_content, &op1, op2.duplicate()), None)
}

#[test]
fn patching_op_ot_splice_splice_non_overlapping() {
    let content = j(r#"{"array": [1, 2, 3, 4, 5]}"#);
    let op1 = splice("array", 0, 1, "[10]");
    let op2 = splice("array", 3, 1, "[20]");
    let expected = splice("array", 3, 1, "[20]");
    assert_eq!(Some(expected), op_ot(&content, &op1, op2))
}

#[test]
fn patching_op_ot_splice_splice_before_base() {
    let content = j(r#"{"array": [1, 2, 3, 4, 5]}"#);
    let op1 = splice("array", 3, 1, "[10]");
    let op2 = splice("array", 1, 1, "[20]");
    assert_eq!(Some(op2.duplicate()), op_ot(&content, &op1, op2))
}

#[test]
fn patching_op_ot_splice_splice_overlapping() {
    let content = j(r#"{"array": [1, 2, 3, 4, 5]}"#);
    let op1 = splice("array", 1, 3, "[]");
    let op2 = splice("array", 2, 2, "[20, 30]");
    assert_eq!(op_ot(&content, &op1, op2), None)
}

#[test]
fn patching_op_ot_splice_splice_after_adjustment() {
    let content = j(r#"{"array": [1, 2, 3, 4, 5]}"#);
    let op1 = splice("array", 0, 1, "[10, 20]");
    let op2 = splice("array", 3, 1, "[30]");
    let expected = splice("array", 4, 1, "[30]");
    assert_eq!(Some(expected), op_ot(&content, &op1, op2))
}

#[test]
fn patching_rebase_multiple_patches() {
    let base_val = j(r#"{"array": [1, 2, 3, 4, 5], "name": "test"}"#);
    let op1 = assign("name", r#""new name""#);
    let op2 = splice("array", 0, 2, "[]");
    let op3 = splice("array", 3, 0, "[10, 20]");
    let patches = vec![patch(1, op1.duplicate()), patch(2, op2.duplicate())];
    let expected = splice("array", 1, 0, "[10, 20]");
    let content1 = apply(base_val.duplicate(), op1).ok().expect("op1 applies");
    let content2 = apply(content1, op2).ok().expect("op2 applies");
    assert!(apply(content2, expected.duplicate()).is_ok());
    assert_eq!(Some(expected), rebase(base_val, op3, patches));
}

#[test]
fn patching_shift_counts_base_removal() {
    // the later splice moves by what the earlier inserts less what the earlier removes
    let content = j(r#"{"array": [1, 2, 3, 4, 5]}"#);
    let op1 = splice("array", 0, 0, "[7, 8, 9]");
    let op2 = splice("array", 2, 2, "[]");
    assert_eq!(Some(splice("array", 5, 2, "[]")), op_ot(&content, &op1, op2));
}

#[test]
fn patching_rebase_over_nothing_is_identity() {
    let op = assign("", r#"{"name": "test", "count": 42}"#);
    assert_eq!(Some(op.duplicate()), rebase(j("{}"), op, vec![]));
}

#[test]
fn patching_rebase_stops_at_conflict() {
    let base = j(r#"{"array": [1, 2, 3], "b": 1}"#);
    let op1 = assign("array", "[7]");
    let op2 = assign("b", "2");
    let op = splice("array", 0, 1, "[9]");
    assert_eq!(rebase(base, op, vec![patch(1, op1), patch(2, op2)]), None);
}

#[test]
fn patching_apply_assign_root_without_value_is_refused() {
    let op = Operation::Assign { path: String::new(), value: None };
    match apply(j(r#"{"a": 1}"#), op) {
        Err(PatchError::Unknown()) => (),
        _ => panic!("expected an unknown error"),
    }
}

#[test]
fn patching_apply_errors() {
    match apply(j(r#"{"x": [1]}"#), splice("x", 1, 1, "[2]")) {
        Err(e) => assert_eq!(e.to_string(), "IndexError: len: 1, index: 1, remove: 1"),
        Ok(_) => panic!("expected an index error"),
    }
    match apply(j(r#"{"x": [1]}"#), splice("y", 0, 0, "[2]")) {
        Err(e) => assert_eq!(e.to_string(), "KeyError: y"),
        Ok(_) => panic!("expected a key error"),
    }
    match apply(j(r#"{"x": "s"}"#), splice("x", 0, 0, "[2]")) {
        Err(e) => assert_eq!(e.to_string(), "ValueIsNotArray"),
        Ok(_) => panic!("expected a not-array error"),
    }
    match apply(j(r#"{"x": [{"id": "a"}]}"#), splice("x", 0, 0, r#"[{"v": 1}]"#)) {
        Err(e) => assert_eq!(e.to_string(), "NoId"),
        Ok(_) => panic!("expected a missing id"),
    }
}

#[test]
fn patching_constructors() {
    match try_new_set(String::new(), None) {
        Err(e) => {
            assert!(matches!(e, OperationError::InvalidSetOp()));
            assert_eq!(e.to_string(), "NoId");
        }
        Ok(_) => panic!("expected a refusal"),
    }
    assert_eq!(
        try_new_set("a".to_string(), None).ok(),
        Some(Operation::Assign { path: "a".to_string(), value: None })
    );
    match try_new_splice("a".to_string(), 0, 0, j("1")) {
        Err(e) => assert_eq!(e.to_string(), "ValueIsNotArray"),
        Ok(_) => panic!("expected a refusal"),
    }
    assert_eq!(
        try_new_splice("a".to_string(), 1, 2, j("[3]")).ok(),
        Some(splice("a", 1, 2, "[3]"))
    );
}

#[test]
fn patching_object() {
    let o = Object::new(ObjectType::Boulder);
    assert_eq!(o.id, None);
    assert_eq!(o.created_by, "");
    assert_eq!(o.get_type(), ObjectType::Boulder);
    let mut o = o;
    o.id = Some("abc".to_string());
    assert_eq!(o.id(), "abc");
}

#[test]
fn patching_rebase_stops_after_conflict() {
    // once the operation is dropped, rebasing stops after the next patch
    let base = j(r#"{"array": [1, 2, 3]}"#);
    let op1 = assign("array", "[7]");
    let op2 = assign("b", "2");
    let op3 = splice("missing", 0, 0, "[1]");
    let op = splice("array", 0, 1, "[9]");
    assert_eq!(rebase(base, op, vec![patch(1, op1), patch(2, op2), patch(3, op3)]), None);
}
