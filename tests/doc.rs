use windmill_variables::doc::{replace_path, Doc};

fn s(x: &str) -> Doc {
    Doc::Str(x.to_string())
}

fn as_str(d: &Doc) -> &str {
    match d {
        Doc::Str(x) => x,
        _ => panic!("not a string"),
    }
}

#[test]
fn replaces_exact_leaf_only() {
    assert_eq!(as_str(&replace_path(s("$var:a/b"), "$var:a/b", "$var:a/c")), "$var:a/c");
    assert_eq!(as_str(&replace_path(s("x $var:a/b"), "$var:a/b", "$var:a/c")), "x $var:a/b");
    assert_eq!(as_str(&replace_path(s("$var:a/bc"), "$var:a/b", "$var:a/c")), "$var:a/bc");
}

#[test]
fn rewrites_nested_documents_keeping_structure() {
    let d = Doc::Object(vec![
        ("token".to_string(), s("$var:a/b")),
        ("$var:a/b".to_string(), Doc::Number("3".to_string())),
        (
            "list".to_string(),
            Doc::Array(vec![s("$var:a/b"), Doc::Bool(true), Doc::Null, s("other")]),
        ),
    ]);
    let r = replace_path(d, "$var:a/b", "$var:a/c");
    let entries = match r {
        Doc::Object(e) => e,
        _ => panic!("not an object"),
    };
    assert_eq!(entries.len(), 3);
    assert_eq!(entries[0].0, "token");
    assert_eq!(as_str(&entries[0].1), "$var:a/c");
    assert_eq!(entries[1].0, "$var:a/b");
    assert!(matches!(&entries[1].1, Doc::Number(n) if n == "3"));
    match &entries[2].1 {
        Doc::Array(items) => {
            assert_eq!(items.len(), 4);
            assert_eq!(as_str(&items[0]), "$var:a/c");
            assert!(matches!(items[1], Doc::Bool(true)));
            assert!(matches!(items[2], Doc::Null));
            assert_eq!(as_str(&items[3]), "other");
        }
        _ => panic!("not an array"),
    }
}
