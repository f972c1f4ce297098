use otp::access::{deny_users, patch_access, read_access, ReadAccess};
use otp::error::{AppError, DbError};
use otp::feed::{forward_patch, subscription_target};
use otp::json::{insert_entry, Value};
use otp::keys::ObjectId;
use otp::model::{
    patches_through, single_patch, Account, AccountRole, AccountsView, Boulder, BouldersView,
    Object, ObjectDoc, ObjectType, Patch, PatchObjectResponse, Snapshot,
};
use otp::operation::{OtError, Operation};
use otp::passport::{
    id_from_draws,
    await_step, check_confirmation_token, confirmed_redirect, email_outcome, found_session,
    new_account, new_id, stored_after_wait, verification_email, AwaitStep, Email, Passport,
    PassportValidity,
};
use otp::profile::{boulder_stat, public_profile, to_lower_hex, transform_date, trim};
use otp::updates::{patch_operations, plan_operation};

fn to_value(v: &serde_json::Value) -> Value {
    match v {
        serde_json::Value::Null => Value::Null,
        serde_json::Value::Bool(b) => Value::Bool(*b),
        serde_json::Value::Number(n) => Value::Number(n.to_string()),
        serde_json::Value::String(s) => Value::String(s.clone()),
        serde_json::Value::Array(a) => Value::Array(a.iter().map(to_value).collect()),
        serde_json::Value::Object(o) => {
            let mut entries = Vec::new();
            for (k, x) in o {
                insert_entry(&mut entries, k.clone(), to_value(x));
            }
            Value::Object(entries)
        }
    }
}

fn j(text: &str) -> Value {
    to_value(&serde_json::from_str::<serde_json::Value>(text).expect("valid json"))
}

fn assign(path: &str, value: &str) -> Operation {
    Operation::Assign {
        path: path.to_string(),
        value: Some(j(value)),
    }
}

fn splice(path: &str, index: usize, remove: usize, insert: &str) -> Operation {
    Operation::Splice {
        path: path.to_string(),
        index,
        remove,
        insert: j(insert),
    }
}

fn boulder(setters: &[&str], removed: usize, is_draft: usize) -> Boulder {
    Boulder {
        id: Some("b1".to_string()),
        setter: setters.iter().map(|s| s.to_string()).collect(),
        sector: "spektrumone".to_string(),
        grade: "yellow".to_string(),
        grade_nr: 3,
        set_date: 947638923004,
        removed,
        is_draft,
        name: "".to_string(),
    }
}

fn account(email: &str, name: Option<&str>) -> Account {
    Account {
        id: Some("a1".to_string()),
        login: "login".to_string(),
        role: AccountRole::Setter,
        email: email.to_string(),
        name: name.map(|n| n.to_string()),
    }
}

// keys

#[test]
fn object_keys() {
    assert_eq!(ObjectId::Base("id".to_string()).to_pk(), "id");
    assert_eq!(ObjectId::Release("id".to_string(), -1).to_pk(), "id/release/-1");
    assert_eq!(ObjectId::Release("id".to_string(), 42).to_pk(), "id/release/42");
    assert_eq!(ObjectId::Authorization("id".to_string()).to_pk(), "id/authorization");
    assert_eq!(ObjectId::Base("id".to_string()).revision_pk(7), "id@7");
    assert_eq!(ObjectId::Authorization("x".to_string()).revision_pk(-3), "x/authorization@-3");
}

// model

#[test]
fn object_kinds_and_views() {
    assert_eq!(ObjectType::Account.to_string(), "type=account");
    assert_eq!(ObjectType::Boulder.to_string(), "type=boulder");
    assert_eq!(ObjectType::Passport.to_string(), "type=passport");
    assert_eq!(AccountsView::collection(), "accounts_view");
    assert_eq!(BouldersView::collection(), "boulders_view");
}

#[test]
fn boulder_setters() {
    let b = boulder(&["s1", "s2"], 0, 0);
    assert!(b.in_setter(&"s2".to_string()));
    assert!(!b.in_setter(&"s3".to_string()));
    assert!(!boulder(&[], 0, 0).in_setter(&"s1".to_string()));
}

#[test]
fn object_from_doc() {
    let doc = ObjectDoc::new(ObjectType::Boulder);
    assert!(doc.id.is_none() && doc.created_at.is_none() && doc.deleted.is_none());
    assert_eq!(doc.created_by, "");
    match Object::from_doc(doc) {
        Err(AppError::Query(m)) => assert_eq!(m, "object doc is missing an id"),
        _ => panic!("expected a query error"),
    }
    let mut doc = ObjectDoc::new(ObjectType::Account);
    doc.id = Some("o1".to_string());
    match Object::from_doc(doc) {
        Err(AppError::Query(m)) => assert_eq!(m, "object doc is missing created_at"),
        _ => panic!("expected a query error"),
    }
    let mut doc = ObjectDoc::new(ObjectType::Account);
    doc.id = Some("o1".to_string());
    doc.created_at = Some(12);
    let o = Object::from_doc(doc).ok().expect("an object");
    assert_eq!(o.id, "o1");
    assert_eq!(o.created_at, 12);
    assert_eq!(o.object_type, ObjectType::Account);
    assert!(!o.deleted);
}

#[test]
fn first_patch_sets_whole_document() {
    let p = Patch::new("o1".to_string(), "a1".to_string(), &j(r#"{"x": 1}"#));
    assert_eq!(p.object_id, "o1");
    assert_eq!(p.author_id, "a1");
    assert_eq!(p.revision_id, 0);
    assert!(p.created_at.is_none());
    assert_eq!(p.operation, assign("", r#"{"x": 1}"#));
}

#[test]
fn patches_up_to_revision() {
    let ps = vec![
        Patch::new_revision(3, "o".to_string(), "a".to_string(), assign("a", "1")),
        Patch::new_revision(1, "o".to_string(), "a".to_string(), assign("b", "1")),
        Patch::new_revision(2, "o".to_string(), "a".to_string(), assign("c", "1")),
    ];
    let kept = patches_through(ps, 2);
    let revs: Vec<i64> = kept.iter().map(|p| p.revision_id).collect();
    assert_eq!(revs, vec![1, 2]);
}

#[test]
fn exactly_one_patch() {
    let two = vec![
        Patch::new_revision(1, "o".to_string(), "a".to_string(), assign("a", "1")),
        Patch::new_revision(1, "o".to_string(), "a".to_string(), assign("a", "2")),
    ];
    match single_patch(two) {
        Err(AppError::Query(m)) => assert_eq!(m, "lookup_patch found 2 patches, expecting only 1"),
        _ => panic!("expected a query error"),
    }
    match single_patch(vec![]) {
        Err(AppError::Query(m)) => assert_eq!(m, "lookup_patch found 0 patches, expecting only 1"),
        _ => panic!("expected a query error"),
    }
    let one = vec![Patch::new_revision(4, "o".to_string(), "a".to_string(), assign("a", "1"))];
    assert_eq!(single_patch(one).ok().expect("a patch").revision_id, 4);
}

#[test]
fn snapshot_revisions() {
    let s = Snapshot::new("o1".to_string());
    assert_eq!(s.revision_id, -1);
    assert_eq!(s.content, j("{}"));
    let (s1, p1) = s
        .new_revision("o1".to_string(), "a1".to_string(), assign("", r#"{"x": [1]}"#))
        .ok()
        .expect("applies")
        .expect("changes the content");
    assert_eq!(s1.revision_id, 0);
    assert_eq!(s1.content, j(r#"{"x": [1]}"#));
    assert_eq!(p1.revision_id, 0);
    assert_eq!(p1.author_id, "a1");
    // an operation that changes nothing makes no revision
    let same = s1.new_revision("o1".to_string(), "a1".to_string(), assign("x", "[1]"));
    assert!(matches!(same, Ok(None)));
    // a failing operation reports its error
    match s1.new_revision("o1".to_string(), "a1".to_string(), splice("y", 0, 0, "[1]")) {
        Err(OtError::Key(k)) => assert_eq!(k, "y"),
        _ => panic!("expected a key error"),
    }
}

#[test]
fn snapshot_applies_patches_in_turn() {
    let s = Snapshot::new("o1".to_string());
    let ps = vec![
        Patch::new_revision(0, "o1".to_string(), "a".to_string(), assign("", r#"{"x": [1, 2]}"#)),
        Patch::new_revision(1, "o1".to_string(), "a".to_string(), splice("x", 1, 0, "[5]")),
        Patch::new_revision(2, "o1".to_string(), "a".to_string(), assign("y", "true")),
    ];
    let t = s.apply_patches(&ps).ok().expect("applies");
    assert_eq!(t.revision_id, 2);
    assert_eq!(t.object_id, "o1");
    assert_eq!(t.content, j(r#"{"x": [1, 5, 2], "y": true}"#));
    // no patches: the same snapshot
    let u = t.apply_patches(&vec![]).ok().expect("applies");
    assert_eq!(u.revision_id, 2);
    assert_eq!(u.content, t.content);
    // the first failure is reported
    let bad = vec![Patch::new_revision(3, "o1".to_string(), "a".to_string(), splice("x", 9, 0, "[1]"))];
    match t.apply_patches(&bad) {
        Err(AppError::Ot(OtError::Index(m))) => assert_eq!(m, "len 3 <= index 9 + remove 0"),
        _ => panic!("expected an index error"),
    }
}

#[test]
fn patch_response_fields() {
    let r = PatchObjectResponse::new(vec![], 3, vec![]);
    assert_eq!(r.num_processed_operations, 3);
    assert!(r.previous_patches.is_empty() && r.resulting_patches.is_empty());
}

// updates

#[test]
fn planning_an_operation() {
    let base = j(r#"{"array": [1, 2, 3, 4, 5], "name": "test"}"#);
    let previous = vec![Patch::new_revision(
        0,
        "o".to_string(),
        "a".to_string(),
        splice("array", 0, 2, "[]"),
    )];
    let ops = patch_operations(&previous);
    assert_eq!(ops, vec![splice("array", 0, 2, "[]")]);
    let snapshot = Snapshot {
        object_id: "o".to_string(),
        revision_id: 0,
        content: j(r#"{"array": [3, 4, 5], "name": "test"}"#),
    };
    let planned = plan_operation(
        &base,
        &snapshot,
        &previous,
        "o".to_string(),
        "me".to_string(),
        splice("array", 3, 0, "[10, 20]"),
    );
    let (s, p) = planned
        .expect("fits")
        .ok()
        .expect("no error")
        .expect("something to store");
    assert_eq!(p.operation, splice("array", 1, 0, "[10, 20]"));
    assert_eq!(p.revision_id, 1);
    assert_eq!(p.author_id, "me");
    assert_eq!(s.revision_id, 1);
    assert_eq!(s.content, j(r#"{"array": [3, 10, 20, 4, 5], "name": "test"}"#));
}

#[test]
fn planning_a_conflicting_operation_stores_nothing() {
    let base = j(r#"{"array": [1, 2, 3]}"#);
    let previous = vec![Patch::new_revision(0, "o".to_string(), "a".to_string(), assign("array", "[]"))];
    let snapshot = Snapshot {
        object_id: "o".to_string(),
        revision_id: 0,
        content: j(r#"{"array": []}"#),
    };
    let planned = plan_operation(
        &base,
        &snapshot,
        &previous,
        "o".to_string(),
        "me".to_string(),
        splice("array", 0, 1, "[]"),
    );
    assert!(matches!(planned, Some(Ok(None))));
}

// errors

#[test]
fn error_responses() {
    assert_eq!(
        AppError::NotAuthorized().status_and_message(),
        (400, "not authorized".to_string())
    );
    assert_eq!(
        AppError::NoSession().status_and_message(),
        (404, "session not found".to_string())
    );
    assert_eq!(
        AppError::Query("q".to_string()).status_and_message(),
        (400, "Query issue: q".to_string())
    );
    assert_eq!(
        AppError::ParseError("p".to_string()).status_and_message(),
        (500, "parse error: p".to_string())
    );
    assert_eq!(
        AppError::Passport("x".to_string()).status_and_message(),
        (400, "passport failure: x".to_string())
    );
    assert_eq!(
        AppError::from_ot(OtError::Key("k".to_string())).status_and_message(),
        (404, "OT failure: KeyError: k".to_string())
    );
    assert_eq!(
        AppError::from_db(DbError::Database("d".to_string())).status_and_message(),
        (500, "database error: d".to_string())
    );
    assert_eq!(
        AppError::from_db(DbError::Deserialize("bad doc".to_string())).status_and_message(),
        (500, "bad doc".to_string())
    );
    assert_eq!(
        AppError::from_db(DbError::DataNotFound).status_and_message(),
        (500, "data not found error".to_string())
    );
}

// access

#[test]
fn users_may_only_read() {
    assert!(matches!(deny_users(AccountRole::User), Err(AppError::NotAuthorized())));
    assert!(deny_users(AccountRole::Setter).is_ok());
    assert!(deny_users(AccountRole::Admin).is_ok());
}

#[test]
fn who_may_read() {
    let me = "me".to_string();
    let other = "other".to_string();
    assert_eq!(read_access(ObjectType::Boulder, &me, None, None), ReadAccess::Allow);
    assert_eq!(read_access(ObjectType::Account, &me, None, None), ReadAccess::NeedRequester);
    assert_eq!(read_access(ObjectType::Account, &me, Some(&me), None), ReadAccess::Allow);
    assert_eq!(read_access(ObjectType::Account, &me, Some(&other), None), ReadAccess::NeedRole);
    assert_eq!(
        read_access(ObjectType::Account, &me, Some(&other), Some(AccountRole::User)),
        ReadAccess::Deny
    );
    assert_eq!(
        read_access(ObjectType::Passport, &me, Some(&other), Some(AccountRole::Setter)),
        ReadAccess::Allow
    );
}

#[test]
fn who_may_change() {
    let me = "me".to_string();
    let other = "other".to_string();
    let name = vec![assign("name", r#""x""#)];
    let role = vec![assign("role", r#""admin""#)];
    assert!(patch_access(AccountRole::Setter, ObjectType::Account, &me, &me, &name, None).is_ok());
    assert!(matches!(
        patch_access(AccountRole::Setter, ObjectType::Account, &me, &me, &role, None),
        Err(AppError::NotAuthorized())
    ));
    assert!(patch_access(AccountRole::Setter, ObjectType::Account, &other, &me, &name, None).is_err());
    assert!(patch_access(AccountRole::Admin, ObjectType::Account, &other, &me, &role, None).is_ok());

    let draft = boulder(&["s1"], 0, 1);
    let set = boulder(&["s1"], 0, 0);
    let b = "b1".to_string();
    let s1 = "s1".to_string();
    assert!(patch_access(AccountRole::Setter, ObjectType::Boulder, &b, &me, &name, Some(&draft)).is_ok());
    assert!(patch_access(AccountRole::Setter, ObjectType::Boulder, &b, &me, &name, Some(&set)).is_err());
    assert!(patch_access(AccountRole::Setter, ObjectType::Boulder, &b, &s1, &name, Some(&set)).is_ok());
    assert!(patch_access(AccountRole::Admin, ObjectType::Boulder, &b, &me, &name, Some(&set)).is_ok());
    assert!(patch_access(AccountRole::User, ObjectType::Passport, &b, &me, &role, None).is_ok());
}

// passport

#[test]
fn the_verification_email() {
    let e = verification_email(
        "x@y.z".to_string(),
        "https://api.boulderhalle.app",
        "gym",
        "p1",
        "blue whale",
        "t0k3n",
    );
    assert_eq!(e.data.to.len(), 1);
    assert_eq!(e.data.to[0].address, "x@y.z");
    assert_eq!(e.data.from.address, "auth@boulderhalle.app");
    assert_eq!(e.data.subject, "gym Login Verification (code: \"blue whale\")");
    let url = "https://api.boulderhalle.app/gym/login/confirm?passportId=p1&confirmationToken=t0k3n";
    let body = format!(
        "Verify your email to log on to the gym\n<br/>\nWe have received a login attempt with the following code:\n<br/>\nblue whale\n<br/>\ncomplete the login process, please click the URL below:\n<br/>\n<a href={url}>{url}</a>\n<br/>\ncopy and paste this URL into your browser."
    );
    assert_eq!(e.data.html, body);
    let plain = Email::new("a@b".to_string(), "s".to_string(), "h".to_string());
    assert_eq!(plain.data.subject, "s");
    assert!(plain.data.to[0].display_name.is_none());
}

#[test]
fn sending_outcome() {
    assert!(email_outcome(true, "").is_ok());
    match email_outcome(false, "timeout") {
        Err(AppError::Passport(m)) => assert_eq!(m, "sending email failed: timeout"),
        _ => panic!("expected a passport error"),
    }
}

#[test]
fn passports_and_accounts() {
    let p = Passport::new("a1".to_string(), "code".to_string(), "tok".to_string());
    assert_eq!(p.validity, PassportValidity::Unconfirmed);
    assert_eq!(p.account_id, "a1");
    let a = new_account("x@y.z".to_string());
    assert_eq!(a.role, AccountRole::User);
    assert_eq!(a.login, "to be removed");
    assert!(a.id.is_none() && a.name.is_none());
    assert!(check_confirmation_token("tok", "tok").is_ok());
    assert!(matches!(check_confirmation_token("tik", "tok"), Err(AppError::NotAuthorized())));
    assert_eq!(await_step(PassportValidity::Valid), AwaitStep::Confirmed);
    assert_eq!(await_step(PassportValidity::Unconfirmed), AwaitStep::Wait);
    assert_eq!(await_step(PassportValidity::Expired), AwaitStep::Refuse);
    assert_eq!(found_session(Some("s".to_string())).ok(), Some("s".to_string()));
    assert!(matches!(found_session(None), Err(AppError::NotAuthorized())));
}

#[test]
fn redirect_after_confirmation() {
    assert_eq!(
        confirmed_redirect("https://dev.api", "leutsch"),
        "https://dev.boulderhalle.app/email-confirmed"
    );
    assert_eq!(
        confirmed_redirect("https://api", "leutsch"),
        "https://minimum-leutsch.boulderhalle.app/email-confirmed"
    );
    assert_eq!(
        confirmed_redirect("https://api", "bh"),
        "https://bh.boulderhalle.app/email-confirmed"
    );
}

#[test]
fn generated_ids() {
    let id = new_id(16);
    assert_eq!(id.chars().count(), 16);
    assert!(id.chars().all(|c| c.is_ascii_alphanumeric()));
    assert_eq!(new_id(0), "");
}

// feed

#[test]
fn subscriptions() {
    let ok = vec!["+".to_string(), "obj".to_string()];
    assert_eq!(subscription_target(&ok).ok(), Some("obj".to_string()));
    match subscription_target(&vec!["a".to_string()]) {
        Err(AppError::ParseError(m)) => assert_eq!(m, r#"unexpected subscribe message: ["a"]"#),
        _ => panic!("expected a parse error"),
    }
    match subscription_target(&vec!["-".to_string(), "x".to_string()]) {
        Err(AppError::ParseError(m)) => {
            assert_eq!(m, r#"unexpected subscribe message: ["-", "x"]"#)
        }
        _ => panic!("expected a parse error"),
    }
}

#[test]
fn forwarded_patches() {
    let subs = vec!["a".to_string(), "b".to_string()];
    assert!(forward_patch(Some(10), 5, &subs, &"b".to_string()));
    assert!(forward_patch(Some(5), 5, &subs, &"a".to_string()));
    assert!(!forward_patch(Some(4), 5, &subs, &"a".to_string()));
    assert!(!forward_patch(Some(10), 5, &subs, &"c".to_string()));
    assert!(!forward_patch(None, 5, &subs, &"a".to_string()));
}

// profile

#[test]
fn profiles() {
    let p = public_profile(&account("  test@example.com ", Some("Tess")));
    assert_eq!(p.name, "Tess");
    assert_eq!(
        p.avatar,
        Some(
            "https://gravatar.com/avatar/973dfe463ec85785f5f95af5ba3906eedb2d931c24e69824a89ea65dba4e813b"
                .to_string()
        )
    );
    let q = public_profile(&account("test@example.com", None));
    assert_eq!(q.name, "");
    assert_eq!(q.avatar, p.avatar);
}

#[test]
fn trimming_and_hex() {
    assert_eq!(trim("  a b \n"), "a b");
    assert_eq!(trim("   "), "");
    assert_eq!(trim("x"), "x");
    assert_eq!(to_lower_hex(&vec![0, 15, 16, 255]), "000f10ff");
}

#[test]
fn boulder_statistics() {
    assert_eq!(transform_date(947638923004), "2000-01-12");
    let s = boulder_stat(boulder(&["s1"], 0, 0));
    assert_eq!(s.set_on, "2000-01-12");
    assert!(s.removed_on.is_none());
    assert_eq!(s.setters, vec!["s1".to_string()]);
    assert_eq!(s.sector, "spektrumone");
    assert_eq!(s.grade, "yellow");
    let r = boulder_stat(boulder(&[], 0, 0));
    assert!(r.setters.is_empty());
    let removed = boulder_stat(boulder(&[], 1000000000000, 0));
    assert_eq!(removed.removed_on, Some("2001-09-09".to_string()));
}

#[test]
fn patches_in_batches() {
    let s = Snapshot::new("o1".to_string());
    let first = vec![
        Patch::new_revision(0, "o1".to_string(), "a".to_string(), assign("", r#"{"x": [1, 2]}"#)),
        Patch::new_revision(1, "o1".to_string(), "a".to_string(), splice("x", 0, 1, "[]")),
    ];
    let second = vec![Patch::new_revision(2, "o1".to_string(), "a".to_string(), assign("y", "1"))];
    let mut all: Vec<Patch> = first.iter().map(|p| p.duplicate()).collect();
    all.extend(second.iter().map(|p| p.duplicate()));
    let at_once = s.apply_patches(&all).ok().expect("applies");
    let in_turn = s
        .apply_patches(&first)
        .ok()
        .expect("applies")
        .apply_patches(&second)
        .ok()
        .expect("applies");
    assert_eq!(at_once.content, in_turn.content);
    assert_eq!(at_once.revision_id, in_turn.revision_id);
    assert_eq!(at_once.content, j(r#"{"x": [2], "y": 1}"#));
}

#[test]
fn passport_confirms_once() {
    let mut validity = PassportValidity::Valid;
    assert_eq!(await_step(validity), AwaitStep::Confirmed);
    validity = stored_after_wait(validity).unwrap_or(validity);
    assert_eq!(validity, PassportValidity::Expired);
    for _ in 0..3 {
        assert_eq!(await_step(validity), AwaitStep::Refuse);
        assert_eq!(stored_after_wait(validity), None);
    }
    assert_eq!(stored_after_wait(PassportValidity::Unconfirmed), None);
}

#[test]
fn ids_from_draws() {
    assert_eq!(id_from_draws(&vec![0, 25, 26, 51, 52, 61]), "AZaz09");
    assert_eq!(id_from_draws(&vec![]), "");
}
