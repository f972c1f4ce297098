use otp::json::{insert_entry, Value};
use otp::operation::{OtError, Operation};
use otp::path::is_reachable;
use otp::rebase::{op_ot, rebase};

fn to_value(v: &serde_json::Value) -> Value {
    match v {
        serde_json::Value::Null => Value::Null,
        serde_json::Value::Bool(b) => Value::Bool(*b),
        serde_json::Value::Number(n) => Value::Number(n.to_string()),
        serde_json::Value::String(s) => Value::String(s.clone()),
        serde_json::Value::Array(a) => Value::Array(a.iter().map(to_value).collect()),
        serde_json::Value::Object(o) => {
            let mut entries = Vec::new();
            for (k, x) in o {
                insert_entry(&mut entries, k.clone(), to_value(x));
            }
            Value::Object(entries)
        }
    }
}

fn j(text: &str) -> Value {
    to_value(&serde_json::from_str::<serde_json::Value>(text).expect("valid json"))
}

fn splice(path: &str, index: usize, remove: usize, insert: &str) -> Operation {
    Operation::Splice {
        path: path.to_string(),
        index,
        remove,
        insert: j(insert),
    }
}

fn assign(path: &str, value: &str) -> Operation {
    Operation::Assign {
        path: path.to_string(),
        value: Some(j(value)),
    }
}

#[test]
fn path_is_reachable_empty_path() {
    let value = j("null");
    assert!(is_reachable("", &value));
}

#[test]
fn path_is_reachable_for_primitive_values() {
    let value = j("null");
    assert!(!is_reachable("x", &value));

    let value = j(r#""""#);
    assert!(!is_reachable("x", &value));

    let value = j("1");
    assert!(!is_reachable("x", &value));

    let value = j("true");
    assert!(!is_reachable("x", &value));
}

#[test]
fn path_is_reachable_for_object() {
    let value = j(r#"{"id": "foo", "bar": "baz", "xx": {"yy": "zz"}}"#);
    // reachable key
    assert!(is_reachable("bar", &value));
    // reachable nested
    assert!(is_reachable("xx.yy", &value));
    // non-existing keys
    assert!(!is_reachable("foo", &value));
    assert!(!is_reachable("abc", &value));
}

#[test]
fn path_is_reachable_for_array() {
    let value = j("[]");
    assert!(!is_reachable("foo.bar", &value));

    let value = j("[{}]");
    assert!(!is_reachable("foo.bar", &value));

    // only reachable objects with id in path
    let value = j(r#"[{"id": "some_id", "bar": "baz"}]"#);
    assert!(is_reachable("some_id.bar", &value));
    // but not if we dont access the id
    let value = j(r#"[{"id": "some_id", "bar": "baz"}]"#);
    assert!(!is_reachable("bar.baz", &value));

    let value = j(r#"["a", "b", "c"]"#);
    assert!(!is_reachable("c", &value));
}

#[test]
fn rebase_rebase_splice_through_same_path_splice() {
    let base_val = j(r#"{"array": [1, 2, 3, 4, 5]}"#);
    let op1 = splice("array", 1, 2, "[10, 20]");
    let op2 = splice("array", 3, 1, "[30, 40]");
    let rebased = rebase(base_val, op2, &[op1]);
    let expected = splice("array", 3, 1, "[30, 40]");
    assert_eq!(Some(expected), rebased.unwrap())
}

#[test]
fn rebase_rebase_splice_on_array() {
    let base_val = j(r#"{"name": "test", "array": ["a", "b", "c", "d"]}"#);
    let op1 = assign("name", r#""updated""#);
    let op2 = splice("array", 1, 1, r#"["x", "y"]"#);
    assert_eq!(
        Some(op2.duplicate()),
        rebase(base_val, op2, &[op1]).unwrap()
    )
}

#[test]
fn rebase_rebase_multiple_patches() {
    let base_val = j(r#"{"array": [1, 2, 3, 4, 5], "name": "test"}"#);
    let op1 = assign("name", r#""new name""#);
    let op2 = splice("array", 0, 2, "[]");
    let op3 = splice("array", 3, 0, "[10, 20]");
    let op3_after_rebase = splice("array", 1, 0, "[10, 20]");
    assert_eq!(
        Some(op3_after_rebase),
        rebase(base_val, op3, &[op1, op2]).unwrap()
    )
}

#[test]
fn rebase_op_ot_set_set_base_prefixed_by_op() {
    let nested_content = j(r#"{"user": {"name": "test", "age": 30}}"#);
    let op1 = assign("user", r#"{"name": "changed", "age": 31}"#);
    let op2 = assign("user.name", r#""another name""#);
    assert_eq!(Some(op2.duplicate()), op_ot(&nested_content, &op1, op2))
}

#[test]
fn rebase_op_ot_set_set_op_prefixed_by_base() {
    let nested_content = j(r#"{"user": {"name": "test", "age": 30}}"#);
    let op1 = assign("user.name", r#""new name""#);
    let op2 = assign("user", r#"{"name": "another", "age": 25}"#);
    assert_eq!(op_ot(&nested_content, &op1, op2.duplicate()), None)
}

#[test]
fn rebase_op_ot_splice_splice_non_overlapping() {
    let content = j(r#"{"array": [1, 2, 3, 4, 5]}"#);
    let op1 = splice("array", 0, 1, "[10]");
    let op2 = splice("array", 3, 1, "[20]");
    assert_eq!(Some(op2.duplicate()), op_ot(&content, &op1, op2))
}

#[test]
fn rebase_op_ot_splice_splice_before_base() {
    let content = j(r#"{"array": [1, 2, 3, 4, 5]}"#);
    let op1 = splice("array", 3, 1, "[10]");
    let op2 = splice("array", 1, 1, "[20]");
    assert_eq!(Some(op2.duplicate()), op_ot(&content, &op1, op2))
}

#[test]
fn rebase_op_ot_splice_splice_overlapping() {
    let content = j(r#"{"array": [1, 2, 3, 4, 5]}"#);
    let op1 = splice("array", 1, 3, "[]");
    let op2 = splice("array", 2, 2, "[20, 30]");
    assert_eq!(op_ot(&content, &op1, op2), None)
}

#[test]
fn rebase_op_ot_splice_splice_after_adjustment() {
    let content = j(r#"{"array": [1, 2, 3, 4, 5]}"#);
    let op1 = splice("array", 0, 1, "[10, 20]");
    let op2 = splice("array", 3, 1, "[30]");
    let expected = splice("array", 4, 1, "[30]");
    assert_eq!(Some(expected), op_ot(&content, &op1, op2))
}

#[test]
fn rebase_over_nothing_is_identity() {
    let op = assign("", r#"{"name": "test", "count": 42}"#);
    let rebased = rebase(j("{}"), op.duplicate(), &[]).unwrap();
    assert!(Some(op) == rebased)
}

#[test]
fn rebase_over_unrelated_assign_is_unchanged() {
    let base = j(r#"{"name": "n", "num": 1, "maybe": true}"#);
    let op1 = assign("a", r#""x""#);
    let op2 = assign("b", r#""y""#);
    assert_eq!(Some(op2.duplicate()), rebase(base, op2, &[op1]).unwrap());
}

#[test]
fn rebase_assign_through_same_path_assign_wins() {
    let base = j(r#"{"a": "0"}"#);
    let op1 = assign("a", r#""1""#);
    let op2 = assign("a", r#""2""#);
    assert_eq!(Some(op2.duplicate()), rebase(base, op2, &[op1]).unwrap());
}

#[test]
fn rebase_assign_through_delete_stands() {
    let base = j(r#"{"name": "n"}"#);
    let op1 = Operation::Assign {
        path: "name".to_string(),
        value: None,
    };
    let op2 = assign("name", r#""new name""#);
    assert_eq!(Some(op2.duplicate()), rebase(base, op2, &[op1]).unwrap());
}

#[test]
fn rebase_duplicate_is_dropped() {
    let content = j(r#"{"name": "n"}"#);
    let op = assign("name", r#""n""#);
    assert_eq!(op_ot(&content, &op, op.duplicate()), None);
}

#[test]
fn rebase_assign_then_splice_same_path_conflicts() {
    let content = j(r#"{"array": [4, 5, 6]}"#);
    let op1 = assign("array", "[4, 5, 6]");
    let op2 = splice("array", 1, 1, "[10]");
    assert_eq!(op_ot(&content, &op1, op2), None);
}

#[test]
fn rebase_splice_then_assign_same_path_stands() {
    let content = j(r#"{"array": [1, 10, 3]}"#);
    let op1 = splice("array", 1, 1, "[10]");
    let op2 = assign("array", "[4, 5, 6]");
    assert_eq!(Some(op2.duplicate()), op_ot(&content, &op1, op2));
}

#[test]
fn rebase_assign_below_splice_needs_reachable_path() {
    // Splice (a) -> Assign (a.b) = ok if a.b exists
    let op1 = splice("a", 0, 0, "[]");
    let reachable = j(r#"{"a": [{"id": "b", "v": 1}]}"#);
    let op2 = assign("a.b", r#"{"id": "b", "v": 2}"#);
    assert_eq!(Some(op2.duplicate()), op_ot(&reachable, &op1, op2.duplicate()));
    let gone = j(r#"{"a": []}"#);
    assert_eq!(op_ot(&gone, &op1, op2), None);
    // Splice (a.b) -> Assign (a) = ok
    let op3 = splice("a.b", 0, 0, "[]");
    let op4 = assign("a", "[]");
    assert_eq!(Some(op4.duplicate()), op_ot(&gone, &op3, op4));
}

#[test]
fn rebase_splice_rows_of_the_table() {
    let empty = j("{}");
    // Assign (foo.bar) -> Splice (foo) = ok
    let base = assign("foo.bar", "1");
    let op = splice("foo", 0, 0, "[2]");
    assert_eq!(Some(op.duplicate()), op_ot(&empty, &base, op));
    // Assign (foo) -> Splice (foo.bar) = none
    let base = assign("foo", "{}");
    let op = splice("foo.bar", 0, 0, "[2]");
    assert_eq!(op_ot(&empty, &base, op), None);
    // Splice (foo) -> Splice (foo.bar) = ok if foo.bar exists
    let base = splice("foo", 0, 0, "[]");
    let op = splice("foo.bar", 0, 0, "[2]");
    let there = j(r#"{"foo": [{"id": "bar", "x": 1}]}"#);
    assert_eq!(Some(op.duplicate()), op_ot(&there, &base, op.duplicate()));
    assert_eq!(op_ot(&empty, &base, op), None);
    // Splice (foo.bar) -> Splice (foo) = ok
    let base = splice("foo.bar", 0, 0, "[]");
    let op = splice("foo", 0, 0, "[2]");
    assert_eq!(Some(op.duplicate()), op_ot(&empty, &base, op));
}

#[test]
fn rebase_failing_patch_is_rebase_error() {
    let base = j(r#"{"a": 1}"#);
    let op1 = splice("missing", 0, 0, "[1]");
    let op2 = assign("a", "2");
    match rebase(base, op2, &[op1]) {
        Err(OtError::Rebase(m)) => assert_eq!(
            m,
            "unexpected failure while applying patches: KeyError: missing"
        ),
        _ => panic!("expected a rebase error"),
    }
}

#[test]
fn rebase_after_conflict_stays_dropped() {
    let base = j(r#"{"arr": [1, 2], "b": 2}"#);
    let op = splice("arr", 0, 0, "[3]");
    let ops = [assign("arr", "[5]"), assign("b", "4")];
    assert_eq!(rebase(base.duplicate(), op.duplicate(), &ops[..1]).unwrap(), None);
    assert_eq!(rebase(base.duplicate(), op.duplicate(), &ops).unwrap(), None);
    // an operation that does not apply is still an error after the conflict
    let failing = [assign("arr", "[5]"), splice("missing", 0, 0, "[1]")];
    match rebase(base, op, &failing) {
        Err(OtError::Rebase(m)) => assert_eq!(
            m,
            "unexpected failure while applying patches: KeyError: missing"
        ),
        _ => panic!("expected a rebase error"),
    }
}

#[test]
fn rebase_shifted_splice_commutes() {
    let doc = j(r#"{"array": [1, 2, 3, 4, 5, 6]}"#);
    let base = splice("array", 1, 2, "[7, 8, 9]");
    let op = splice("array", 4, 1, "[0]");
    let after_base = base.apply_to(doc.duplicate()).ok().expect("base applies");
    let moved = op_ot(&after_base, &base, op.duplicate()).expect("op stands");
    assert_eq!(moved, splice("array", 5, 1, "[0]"));
    let one_way = moved.apply_to(after_base).ok().expect("moved op applies");
    let after_op = op.apply_to(doc).ok().expect("op applies");
    let other_way = base.apply_to(after_op).ok().expect("base applies after op");
    assert_eq!(one_way, other_way);
    assert_eq!(one_way, j(r#"{"array": [1, 7, 8, 9, 4, 0, 6]}"#));
}

#[test]
fn rebase_earlier_splice_commutes() {
    let doc = j(r#"{"array": [1, 2, 3, 4, 5, 6]}"#);
    let base = splice("array", 4, 1, "[0]");
    let op = splice("array", 0, 2, "[9]");
    let after_base = base.apply_to(doc.duplicate()).ok().expect("base applies");
    assert_eq!(Some(op.duplicate()), op_ot(&after_base, &base, op.duplicate()));
    let one_way = op.apply_to(after_base).ok().expect("op applies");
    let moved_base = splice("array", 3, 1, "[0]");
    let other_way = moved_base
        .apply_to(op.apply_to(doc).ok().expect("op applies"))
        .ok()
        .expect("moved base applies");
    assert_eq!(one_way, other_way);
}
