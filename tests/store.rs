use windmill_variables::cipher::{decrypt, derive_cipher, encrypt};
use windmill_variables::doc::Doc;
use windmill_variables::error::ErrorKind;
use windmill_variables::store::{
    Account, ActionKind, CreateVariable, EditVariable, ListableVariable, Notification,
    RefreshedToken, Store, ValueOutcome, VariableOutcome,
};

const W: &str = "ws";

fn store() -> Store {
    let mut s = Store::new(Some("pepper".to_string()));
    s.set_workspace_key(W, "material");
    s
}

fn new_var(path: &str, value: &str, is_secret: bool) -> CreateVariable {
    CreateVariable {
        path: path.to_string(),
        value: value.to_string(),
        is_secret,
        description: "d".to_string(),
        account: None,
        is_oauth: None,
    }
}

fn no_edit() -> EditVariable {
    EditVariable { path: None, value: None, is_secret: None, description: None }
}

fn stored_value(s: &Store, path: &str) -> String {
    s.variables.iter().find(|v| v.workspace_id == W && v.path == path).unwrap().value.clone()
}

fn ready(o: VariableOutcome) -> ListableVariable {
    match o {
        VariableOutcome::Ready(l) => l,
        VariableOutcome::Refresh { .. } => panic!("unexpected refresh"),
    }
}

#[test]
fn create_encrypts_secret_and_reads_back() {
    let mut s = store();
    let msg = s.create_variable("alice", W, new_var("u/alice/k", "s3cret", true), false).unwrap();
    assert_eq!(msg, "variable u/alice/k created");
    let stored = stored_value(&s, "u/alice/k");
    assert_ne!(stored, "s3cret");
    let mc = derive_cipher("materialpepper", &None);
    assert_eq!(stored, encrypt(&mc, "s3cret"));
    let l = ready(s.get_variable("alice", W, "u/alice/k", true, 0).unwrap());
    assert_eq!(l.value.as_deref(), Some("s3cret"));
    assert_eq!(s.audit.len(), 2);
    assert_eq!(s.audit[0].operation, "variables.create");
    assert_eq!(s.audit[1].operation, "variables.decrypt_secret");
    assert_eq!(s.audit[1].action, ActionKind::Execute);
    assert!(matches!(&s.notifications[0], Notification::CreateVariable { path, .. } if path == "u/alice/k"));
}

#[test]
fn create_plain_and_already_encrypted_store_value_as_is() {
    let mut s = store();
    s.create_variable("a", W, new_var("p", "plain", false), false).unwrap();
    s.create_variable("a", W, new_var("q", "given-cipher", true), true).unwrap();
    assert_eq!(stored_value(&s, "p"), "plain");
    assert_eq!(stored_value(&s, "q"), "given-cipher");
    assert!(s.exists_variable(W, "p"));
    assert!(!s.exists_variable(W, "r"));
    assert!(!s.exists_variable("other", "p"));
}

#[test]
fn second_create_at_same_path_conflicts() {
    let mut s = store();
    assert!(s.create_variable("a", W, new_var("x", "1", false), false).is_ok());
    let e = s.create_variable("b", W, new_var("x", "2", true), false).unwrap_err();
    assert_eq!(e.kind(), ErrorKind::Conflict);
    assert_eq!(e.message(), "Variable x already exists");
    assert_eq!(s.variables.len(), 1);
    assert_eq!(stored_value(&s, "x"), "1");
    assert_eq!(s.audit.len(), 1);
    // another workspace is independent
    s.set_workspace_key("w2", "k2");
    assert!(s.create_variable("a", "w2", new_var("x", "1", false), false).is_ok());
}

#[test]
fn secret_without_workspace_key_fails() {
    let mut s = Store::new(None);
    let e = s.create_variable("a", W, new_var("x", "1", true), false).unwrap_err();
    assert_eq!(e.kind(), ErrorKind::KeyNotFound);
    assert!(s.variables.is_empty());
    assert_eq!(s.encrypt_value(W, "v").unwrap_err().kind(), ErrorKind::KeyNotFound);
}

#[test]
fn encrypt_value_matches_stored_form() {
    let mut s = store();
    let c = s.encrypt_value(W, "v").unwrap();
    s.create_variable("a", W, new_var("x", &c, true), true).unwrap();
    assert_eq!(ready(s.get_variable("a", W, "x", true, 0).unwrap()).value.as_deref(), Some("v"));
}

#[test]
fn delete_nonexistent_is_silent() {
    let mut s = store();
    s.create_variable("a", W, new_var("x", "1", false), false).unwrap();
    let audit = s.audit.len();
    let msg = s.delete_variable("a", W, "nope").unwrap();
    assert_eq!(msg, "variable nope deleted");
    assert_eq!(s.audit.len(), audit);
    assert_eq!(s.notifications.len(), 1);
    assert_eq!(s.variables.len(), 1);
}

#[test]
fn delete_twice_same_as_once() {
    let mut s = store();
    s.create_variable("a", W, new_var("x", "1", false), false).unwrap();
    s.add_resource(W, "x", Some(Doc::Null)).unwrap();
    s.delete_variable("a", W, "x").unwrap();
    assert!(s.variables.is_empty());
    assert!(s.resources.is_empty());
    let (audit, notes) = (s.audit.len(), s.notifications.len());
    assert_eq!(s.audit[audit - 1].operation, "variables.delete");
    assert!(s.delete_variable("a", W, "x").is_ok());
    assert_eq!((s.audit.len(), s.notifications.len()), (audit, notes));
    assert_eq!(s.get_variable("a", W, "x", true, 0).unwrap_err().kind(), ErrorKind::NotFound);
}

#[test]
fn secrecy_flip_without_value_is_rejected() {
    let mut s = store();
    s.create_variable("a", W, new_var("x", "plain", false), false).unwrap();
    let ns = EditVariable { is_secret: Some(true), ..no_edit() };
    let e = s.update_variable("a", W, "x", ns, false, true).unwrap_err();
    assert_eq!(e.kind(), ErrorKind::BadRequest);
    assert_eq!(stored_value(&s, "x"), "plain");
    assert_eq!(s.audit.len(), 1);
}

#[test]
fn secrecy_flip_with_value_reads_back() {
    let mut s = store();
    s.create_variable("a", W, new_var("x", "plain", false), false).unwrap();
    let ns = EditVariable { is_secret: Some(true), value: Some("x".to_string()), ..no_edit() };
    let msg = s.update_variable("a", W, "x", ns, false, true).unwrap();
    assert_eq!(msg, "variable x updated (npath: \"x\")");
    assert_ne!(stored_value(&s, "x"), "x");
    let l = ready(s.get_variable("a", W, "x", true, 0).unwrap());
    assert!(l.is_secret);
    assert_eq!(l.value.as_deref(), Some("x"));
}

#[test]
fn update_value_keeps_current_secrecy() {
    let mut s = store();
    s.create_variable("a", W, new_var("x", "old", true), false).unwrap();
    let ns = EditVariable { value: Some("new".to_string()), description: Some("nd".to_string()), ..no_edit() };
    s.update_variable("a", W, "x", ns, false, true).unwrap();
    match s.get_value_internal("a", W, "x", 0).unwrap() {
        ValueOutcome::Ready(v) => assert_eq!(v, "new"),
        ValueOutcome::Refresh(_) => panic!("unexpected refresh"),
    }
    let l = ready(s.get_variable("a", W, "x", false, 0).unwrap());
    assert_eq!(l.description, "nd");
    assert_eq!(l.value, None);
}

#[test]
fn update_missing_variable_is_not_found() {
    let mut s = store();
    let ns = EditVariable { value: Some("v".to_string()), ..no_edit() };
    assert_eq!(s.update_variable("a", W, "x", ns, false, true).unwrap_err().kind(), ErrorKind::NotFound);
}

#[test]
fn rename_rewrites_linked_resource() {
    let mut s = store();
    s.create_variable("a", W, new_var("a/b", "v", false), false).unwrap();
    let doc = Doc::Object(vec![
        ("token".to_string(), Doc::Str("$var:a/b".to_string())),
        ("n".to_string(), Doc::Array(vec![Doc::Str("$var:a/b".to_string()), Doc::Str("keep".to_string())])),
    ]);
    s.add_resource(W, "a/b", Some(doc)).unwrap();
    let ns = EditVariable { path: Some("a/c".to_string()), ..no_edit() };
    let msg = s.update_variable("a", W, "a/b", ns, false, true).unwrap();
    assert_eq!(msg, "variable a/b updated (npath: \"a/c\")");
    assert!(s.exists_variable(W, "a/c"));
    assert!(!s.exists_variable(W, "a/b"));
    assert_eq!(s.resources.len(), 1);
    let r = &s.resources[0];
    assert_eq!(r.path, "a/c");
    let text = format!("{:?}", r.value);
    assert!(text.contains("$var:a/c"));
    assert!(!text.contains("$var:a/b"));
    assert!(text.contains("keep"));
    assert!(matches!(
        s.notifications.last(),
        Some(Notification::UpdateVariable { old_path, new_path, .. }) if old_path == "a/b" && new_path == "a/c"
    ));
}

#[test]
fn rename_onto_taken_path_conflicts() {
    let mut s = store();
    s.create_variable("a", W, new_var("a/b", "v", false), false).unwrap();
    s.create_variable("a", W, new_var("a/c", "w", false), false).unwrap();
    let ns = EditVariable { path: Some("a/c".to_string()), value: Some("z".to_string()), ..no_edit() };
    assert_eq!(s.update_variable("a", W, "a/b", ns, false, true).unwrap_err().kind(), ErrorKind::Conflict);
    assert_eq!(stored_value(&s, "a/b"), "v");
}

#[test]
fn rename_moving_resource_onto_resource_conflicts() {
    let mut s = store();
    s.create_variable("a", W, new_var("a/b", "v", false), false).unwrap();
    s.add_resource(W, "a/b", None).unwrap();
    s.add_resource(W, "a/c", None).unwrap();
    let ns = EditVariable { path: Some("a/c".to_string()), ..no_edit() };
    assert_eq!(s.update_variable("a", W, "a/b", ns, false, true).unwrap_err().kind(), ErrorKind::Conflict);
}

#[test]
fn rename_requires_ownership() {
    let mut s = store();
    s.create_variable("a", W, new_var("a/b", "v", false), false).unwrap();
    let ns = EditVariable { path: Some("a/c".to_string()), ..no_edit() };
    assert_eq!(s.update_variable("a", W, "a/b", ns, false, false).unwrap_err().kind(), ErrorKind::NotAuthorized);
    let same = EditVariable { path: Some("a/b".to_string()), ..no_edit() };
    assert!(s.update_variable("a", W, "a/b", same, false, false).is_ok());
}

fn linked_secret(s: &mut Store, expires_at: i64) {
    s.add_account(Account {
        id: 7,
        workspace_id: W.to_string(),
        expires_at,
        refresh_token: "rt".to_string(),
        refresh_error: None,
    })
    .unwrap();
    let mut c = new_var("u/a/oauth", "stale-token", true);
    c.account = Some(7);
    c.is_oauth = Some(true);
    s.create_variable("a", W, c, false).unwrap();
}

#[test]
fn expired_token_is_refreshed_not_decrypted() {
    let mut s = store();
    linked_secret(&mut s, 100);
    match s.get_variable("a", W, "u/a/oauth", true, 200).unwrap() {
        VariableOutcome::Refresh { variable, account } => {
            assert_eq!(account, 7);
            assert_eq!(variable.value, None);
            assert_eq!(variable.is_expired, Some(true));
            assert_eq!(variable.is_refreshed, Some(true));
        }
        VariableOutcome::Ready(_) => panic!("expected a refresh"),
    }
    match s.get_value_internal("a", W, "u/a/oauth", 200).unwrap() {
        ValueOutcome::Refresh(a) => assert_eq!(a, 7),
        ValueOutcome::Ready(_) => panic!("expected a refresh"),
    }
    let t = RefreshedToken { access_token: "fresh".to_string(), expires_at: 900 };
    assert_eq!(s.complete_refresh("a", W, "u/a/oauth", 7, Ok(t)).unwrap(), "fresh");
    assert_eq!(s.accounts[0].expires_at, 900);
    let l = ready(s.get_variable("a", W, "u/a/oauth", true, 200).unwrap());
    assert_eq!(l.value.as_deref(), Some("fresh"));
    assert_eq!(l.is_expired, Some(false));
}

#[test]
fn unexpired_token_is_decrypted() {
    let mut s = store();
    linked_secret(&mut s, 100);
    let l = ready(s.get_variable("a", W, "u/a/oauth", true, 50).unwrap());
    assert_eq!(l.value.as_deref(), Some("stale-token"));
}

#[test]
fn failed_refresh_leaves_no_trace() {
    let mut s = store();
    linked_secret(&mut s, 100);
    let audit = s.audit.len();
    match s.get_value_internal("a", W, "u/a/oauth", 200).unwrap() {
        ValueOutcome::Refresh(a) => assert_eq!(a, 7),
        ValueOutcome::Ready(_) => panic!("expected a refresh"),
    }
    assert_eq!(s.audit.len(), audit);
    let stored = stored_value(&s, "u/a/oauth");
    let e = s.complete_refresh("a", W, "u/a/oauth", 7, Err("denied".to_string())).unwrap_err();
    assert_eq!(e.kind(), ErrorKind::RefreshError);
    assert_eq!(e.message(), "denied");
    assert_eq!(s.audit.len(), audit);
    assert_eq!(s.accounts[0].refresh_error, None);
    assert_eq!(s.accounts[0].expires_at, 100);
    assert_eq!(stored_value(&s, "u/a/oauth"), stored);
    assert_eq!(
        s.complete_refresh("a", W, "u/a/oauth", 8, Err("x".to_string())).unwrap_err().kind(),
        ErrorKind::NotFound
    );
}

#[test]
fn successful_refresh_is_audited() {
    let mut s = store();
    linked_secret(&mut s, 100);
    let audit = s.audit.len();
    assert!(matches!(s.get_variable("a", W, "u/a/oauth", true, 200).unwrap(), VariableOutcome::Refresh { .. }));
    assert_eq!(s.audit.len(), audit);
    let t = RefreshedToken { access_token: "fresh".to_string(), expires_at: 900 };
    s.complete_refresh("bob", W, "u/a/oauth", 7, Ok(t)).unwrap();
    assert_eq!(s.audit.len(), audit + 1);
    assert_eq!(s.audit[audit].operation, "variables.decrypt_secret");
    assert_eq!(s.audit[audit].username, "bob");
}

#[test]
fn masked_read_has_no_value() {
    let mut s = store();
    s.create_variable("a", W, new_var("x", "hidden", true), false).unwrap();
    linked_secret(&mut s, 100);
    let audit = s.audit.len();
    for (path, now) in [("x", 0), ("u/a/oauth", 200), ("u/a/oauth", 0)] {
        let l = ready(s.get_variable("a", W, path, false, now).unwrap());
        assert_eq!(l.value, None);
    }
    assert_eq!(s.audit.len(), audit);
}

#[test]
fn empty_secret_reads_as_empty_string() {
    let mut s = store();
    s.create_variable("a", W, new_var("x", "", true), true).unwrap();
    let l = ready(s.get_variable("a", W, "x", true, 0).unwrap());
    assert_eq!(l.value.as_deref(), Some(""));
}

#[test]
fn corrupted_secret_fails_decryption_without_audit() {
    let mut s = store();
    s.create_variable("a", W, new_var("x", "garbage!!", true), true).unwrap();
    let audit = s.audit.len();
    let e = s.get_variable("a", W, "x", true, 0).unwrap_err();
    assert_eq!(e.kind(), ErrorKind::DecryptionError);
    assert_eq!(s.get_value_internal("a", W, "x", 0).unwrap_err().kind(), ErrorKind::DecryptionError);
    assert_eq!(s.audit.len(), audit);
}

#[test]
fn plain_read_shows_stored_value_and_link() {
    let mut s = store();
    s.create_variable("a", W, new_var("x", "v", false), false).unwrap();
    s.add_resource(W, "x", None).unwrap();
    let l = ready(s.get_variable("a", W, "x", true, 0).unwrap());
    assert_eq!(l.value.as_deref(), Some("v"));
    assert_eq!(l.is_linked, Some(true));
    assert_eq!(l.is_expired, None);
    assert_eq!(s.audit.len(), 1);
    let mc = derive_cipher("materialpepper", &None);
    assert!(decrypt(&mc, "v").is_err());
}

#[test]
fn listing_masks_secrets_and_keeps_workspace() {
    let mut s = store();
    s.set_workspace_key("w2", "k2");
    s.create_variable("a", W, new_var("p", "plain", false), false).unwrap();
    s.create_variable("a", "w2", new_var("other", "o", false), false).unwrap();
    s.create_variable("a", W, new_var("s", "hidden", true), false).unwrap();
    s.create_variable("a", W, new_var("f/b", "1", false), false).unwrap();
    s.create_variable("a", W, new_var("f/a", "2", false), false).unwrap();
    let l = s.list_variables(W, 0);
    let paths: Vec<&str> = l.iter().map(|r| r.path.as_str()).collect();
    assert_eq!(paths, vec!["f/a", "f/b", "p", "s"]);
    assert_eq!(l[2].value.as_deref(), Some("plain"));
    assert_eq!(l[0].value.as_deref(), Some("2"));
    assert_eq!(l[3].value, None);
    assert!(l[3].is_secret);
    assert!(s.list_variables("none", 0).is_empty());
}
