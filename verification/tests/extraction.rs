use nixsec::ast::{Bind, Expr, Pos, Span, StrPart};
use nixsec::data::{ConfigFileData, Derivation, Secret};
use nixsec::extract::{extract, read_string_list, read_string_object, ExtractError};
use nixsec::ConfigFile;

fn sp(sl: usize, sc: usize, el: usize, ec: usize) -> Span {
    Span { start: Pos { line: sl, column: sc }, end: Pos { line: el, column: ec } }
}

fn raw(content: &str) -> StrPart {
    StrPart::Raw { content: content.to_string(), span: sp(1, 1, 1, 1) }
}

fn raw_at(content: &str, sl: usize, sc: usize) -> StrPart {
    StrPart::Raw { content: content.to_string(), span: sp(sl, sc, sl, sc) }
}

fn str_expr(content: &str) -> Expr {
    Expr::StrExpr { parts: vec![raw(content)], span: sp(1, 1, 1, 1) }
}

fn indent_str_expr(content: &str) -> Expr {
    Expr::IndentStrExpr { parts: vec![raw(content)], span: sp(1, 1, 1, 1) }
}

fn kv1(name: &str, value: Expr) -> Bind {
    Bind::KeyValue { key: vec![raw(name)], value: Box::new(value) }
}

fn kv2(name: &str, attr: &str, value: Expr) -> Bind {
    Bind::KeyValue { key: vec![raw(name), raw(attr)], value: Box::new(value) }
}

fn attrset(bindings: Vec<Bind>) -> Expr {
    Expr::AttrSet { bindings, span: sp(1, 1, 1, 1) }
}

fn list(elements: Vec<Expr>) -> Expr {
    Expr::ListExpr { elements, span: sp(1, 1, 1, 1) }
}

fn lambda(destructured: bool, params: &[&str]) -> Expr {
    Expr::Lambda {
        destructured,
        params: params.iter().map(|p| p.to_string()).collect(),
        span: sp(1, 1, 1, 1),
    }
}

fn secrets_of(data: &ConfigFileData) -> Vec<(String, Vec<String>, String)> {
    data.secrets
        .iter()
        .map(|(n, s)| (n.clone(), s.hosts.clone(), s.enc.clone()))
        .collect()
}

// A `secrets` section with `db.hosts = ["a" "b"]; db.enc = '' XXXX '';`
// extracts to one secret `db` with both hosts and the trimmed payload.
#[test]
fn scenario_simple_secrets() {
    let root = attrset(vec![kv1(
        "secrets",
        attrset(vec![
            kv2("db", "hosts", list(vec![str_expr("a"), str_expr("b")])),
            kv2("db", "enc", indent_str_expr(" XXXX ")),
        ]),
    )]);
    let r = extract(&root).unwrap();
    assert_eq!(
        secrets_of(&r.0),
        vec![("db".to_string(), vec!["a".to_string(), "b".to_string()], "XXXX".to_string())]
    );
}

// A document without a top-level `secrets` binding fails with
// `MissingSecretsKey` and yields no partial result.
#[test]
fn scenario_missing_secrets() {
    let root = attrset(vec![kv1("admins", attrset(vec![]))]);
    let r = ConfigFile::from_ast("x.nix".to_string(), "{ admins = {}; }".to_string(), &root);
    assert!(matches!(r, Err(ExtractError::MissingSecretsKey)));
}

// A root that is not an attribute set fails with `NotAMap`.
#[test]
fn scenario_not_a_map() {
    let root = list(vec![]);
    let r = extract(&root);
    assert!(matches!(r, Err(ExtractError::NotAMap)));
}

// A derivation with a non-destructured head stops the derivations walk:
// entries before it stay, it and everything after it are dropped, and the
// document as a whole still loads.
#[test]
fn scenario_derivations_abort() {
    let root = attrset(vec![
        kv1(
            "derivations",
            attrset(vec![
                kv1("ok", lambda(true, &["x", "y"])),
                kv1("foo", lambda(false, &[])),
                kv1("later", lambda(true, &["z"])),
            ]),
        ),
        kv1("secrets", attrset(vec![])),
    ]);
    let (data, _) = extract(&root).unwrap();
    let names: Vec<&str> = data.derivations.iter().map(|(n, _)| n.as_str()).collect();
    assert_eq!(names, vec!["ok"]);
    assert_eq!(data.derivations[0].1.input, vec!["x".to_string(), "y".to_string()]);
}

// A hosts list with one interpolated (or otherwise malformed) element
// keeps every valid sibling and only omits that element.
#[test]
fn lenient_hosts_list() {
    let bad = Expr::StrExpr {
        parts: vec![raw("x"), StrPart::Dynamic],
        span: sp(1, 1, 1, 1),
    };
    let l = list(vec![str_expr("a"), bad, str_expr("c")]);
    let r = read_string_list(&l);
    assert_eq!(r, vec!["a".to_string(), "c".to_string()]);
}

// A fully dynamic element and a non-string element are also dropped.
#[test]
fn lenient_hosts_list_non_string() {
    let l = list(vec![
        str_expr("a"),
        Expr::Opaque { span: sp(1, 1, 1, 1) },
        lambda(true, &[]),
        str_expr("b"),
    ]);
    let r = read_string_list(&l);
    assert_eq!(r, vec!["a".to_string(), "b".to_string()]);
}

// Admins and hosts sections: well-formed pairs are kept, malformed child
// bindings (multi-part key, non-string value) are skipped, a later binding
// for the same key overwrites the earlier one.
#[test]
fn admins_extraction() {
    let section = attrset(vec![
        kv1("alice", str_expr("key-a")),
        kv2("bob", "extra", str_expr("skipped")),
        kv1("carol", list(vec![])),
        kv1("alice", str_expr("key-a2")),
    ]);
    let r = read_string_object(&section);
    assert_eq!(r, vec![("alice".to_string(), "key-a2".to_string())]);
}

// The top level dispatches all four sections and ignores unknown keys.
#[test]
fn full_document() {
    let root = attrset(vec![
        kv1("admins", attrset(vec![kv1("alice", str_expr("pk"))])),
        kv1("hosts", attrset(vec![kv1("web", str_expr("10.0.0.1"))])),
        kv1("derivations", attrset(vec![kv1("d", lambda(true, &["a"]))])),
        kv1("ignored", str_expr("whatever")),
        kv1(
            "secrets",
            attrset(vec![kv2("s", "hosts", list(vec![str_expr("web")]))]),
        ),
    ]);
    let cf = ConfigFile::from_ast("p.nix".to_string(), "".to_string(), &root).unwrap();
    assert_eq!(cf.data.admins, vec![("alice".to_string(), "pk".to_string())]);
    assert_eq!(cf.data.hosts, vec![("web".to_string(), "10.0.0.1".to_string())]);
    assert_eq!(cf.data.derivations.len(), 1);
    assert_eq!(cf.data.secrets.len(), 1);
    assert_eq!(cf.data.secrets[0].0, "s");
    assert_eq!(cf.data.secrets[0].1.hosts, vec!["web".to_string()]);
    assert_eq!(cf.data.secrets[0].1.enc, "");
}

// The recorded span runs from the `secrets` key token's start to the end
// of its bound value.
#[test]
fn secrets_span_recorded() {
    let value = Expr::AttrSet { bindings: vec![], span: sp(2, 13, 4, 4) };
    let root = attrset(vec![Bind::KeyValue {
        key: vec![raw_at("secrets", 2, 3)],
        value: Box::new(value),
    }]);
    let (_, span) = extract(&root).unwrap();
    assert_eq!((span.start.line, span.start.column), (2, 3));
    assert_eq!((span.end.line, span.end.column), (4, 4));
}

// Referencing `name.enc` with a malformed value still creates the entry
// lazily, with the default zero-value secret.
#[test]
fn lazy_secret_creation() {
    let root = attrset(vec![kv1(
        "secrets",
        attrset(vec![kv2("db", "enc", str_expr("not-indented"))]),
    )]);
    let (data, _) = extract(&root).unwrap();
    assert_eq!(
        secrets_of(&data),
        vec![("db".to_string(), Vec::<String>::new(), String::new())]
    );
}

// An unknown secret attribute (`db.other`) is ignored entirely.
#[test]
fn unknown_secret_attr_ignored() {
    let root = attrset(vec![kv1(
        "secrets",
        attrset(vec![kv2("db", "other", str_expr("x"))]),
    )]);
    let (data, _) = extract(&root).unwrap();
    assert!(data.secrets.is_empty());
}

// The payload of `enc` is trimmed of leading and trailing whitespace,
// inner line breaks kept.
#[test]
fn enc_trimmed() {
    let root = attrset(vec![kv1(
        "secrets",
        attrset(vec![kv2("db", "enc", indent_str_expr("\n  A\nB \n"))]),
    )]);
    let (data, _) = extract(&root).unwrap();
    assert_eq!(data.secrets[0].1.enc, "A\nB");
}

// Derivation arguments accumulate across duplicate keys.
#[test]
fn derivation_duplicate_key_extends() {
    let root = attrset(vec![
        kv1(
            "derivations",
            attrset(vec![
                kv1("d", lambda(true, &["a"])),
                kv1("d", lambda(true, &["b"])),
            ]),
        ),
        kv1("secrets", attrset(vec![])),
    ]);
    let (data, _) = extract(&root).unwrap();
    assert_eq!(data.derivations.len(), 1);
    assert_eq!(data.derivations[0].1.input, vec!["a".to_string(), "b".to_string()]);
}

// Building blocks used across the tests keep their plain-data shape.
#[test]
fn data_model_shapes() {
    let s = Secret { hosts: vec!["h".to_string()], enc: "e".to_string() };
    assert_eq!(s.hosts.len(), 1);
    let d = Derivation { input: vec![] };
    assert!(d.input.is_empty());
}
