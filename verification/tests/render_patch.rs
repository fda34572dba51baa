use nixsec::ast::{Pos, Span};
use nixsec::data::{ConfigFileData, Secret};
use nixsec::patch::{count_indent, patched_text, resolve_pos, sibling_path};
use nixsec::render::secrets_to_nix;
use nixsec::text::trim_str;
use nixsec::ConfigFile;

fn sp(sl: usize, sc: usize, el: usize, ec: usize) -> Span {
    Span { start: Pos { line: sl, column: sc }, end: Pos { line: el, column: ec } }
}

fn one_secret(name: &str, hosts: &[&str], enc: &str) -> Vec<(String, Secret)> {
    vec![(
        name.to_string(),
        Secret { hosts: hosts.iter().map(|h| h.to_string()).collect(), enc: enc.to_string() },
    )]
}

// Exact rendered block for one secret at base indentation 2: statements at
// four spaces, the payload line at six, the closing brace at two.
#[test]
fn render_one_secret() {
    let secrets = one_secret("db", &["a", "b"], "XXXX");
    let out = secrets_to_nix(&secrets, 2);
    assert_eq!(
        out,
        "secrets = {\n    db.hosts = [ \"a\" \"b\" ];\n    db.enc = ''\n      XXXX'';\n  }"
    );
}

// At base indentation 0 nothing is indented, and an empty hosts list
// renders as an empty list literal.
#[test]
fn render_indent_zero() {
    let secrets = one_secret("s", &[], "P");
    let out = secrets_to_nix(&secrets, 0);
    assert_eq!(out, "secrets = {\ns.hosts = [ ];\ns.enc = ''\nP'';\n}");
}

// A multi-line payload has every line re-prefixed at three base widths.
#[test]
fn render_multiline_payload() {
    let secrets = one_secret("s", &["h"], "A\nB");
    let out = secrets_to_nix(&secrets, 1);
    assert_eq!(out, "secrets = {\n  s.hosts = [ \"h\" ];\n  s.enc = ''\n   A\n   B'';\n }");
}

// An empty mapping renders as an empty block.
#[test]
fn render_empty_mapping() {
    let secrets: Vec<(String, Secret)> = Vec::new();
    let out = secrets_to_nix(&secrets, 2);
    assert_eq!(out, "secrets = {\n  }");
}

// The resolver turns 1-based line/column positions into character
// offsets by one forward walk.
#[test]
fn resolver_offsets() {
    let src = "ab\ncde\nf";
    assert_eq!(resolve_pos(src, 1, 1), 0);
    assert_eq!(resolve_pos(src, 1, 3), 2);
    assert_eq!(resolve_pos(src, 2, 1), 3);
    assert_eq!(resolve_pos(src, 2, 3), 5);
    assert_eq!(resolve_pos(src, 3, 1), 7);
    // A position past the text resolves to its length.
    assert_eq!(resolve_pos(src, 9, 9), 8);
}

// The indent counter measures the consecutive spaces immediately before
// an offset.
#[test]
fn indent_counting() {
    let src = "{\n    secrets = x;\n}";
    let off = resolve_pos(src, 2, 5);
    assert_eq!(off, 6);
    assert_eq!(count_indent(src, off), 4);
    assert_eq!(count_indent(src, 1), 0);
}

// Splicing replaces exactly the recorded span: the prefix and the suffix
// of the source reappear unchanged around the rendered block.
#[test]
fn patch_replaces_span_only() {
    let src = "{\n  secrets = OLD;\n  after = 1;\n}\n";
    // `secrets` starts at line 2 column 3; its value ends before `;` at
    // line 2 column 16.
    let span = sp(2, 3, 2, 16);
    let secrets = one_secret("db", &["a"], "XX");
    let out = patched_text(src, span, &secrets);
    let expected = "{\n  secrets = {\n    db.hosts = [ \"a\" ];\n    db.enc = ''\n      XX'';\n  };\n  after = 1;\n}\n";
    assert_eq!(out, expected);
    // Isolation, checked by diffing against the source outside the span.
    assert_eq!(&out[..4], &src[..4]);
    assert_eq!(&out[out.len() - 17..], &src[src.len() - 17..]);
}

// The base indentation is inferred from the spaces before the `secrets`
// key, here 4, and the payload line is indented at three times that.
#[test]
fn patch_indent_fidelity() {
    let src = "{\n    secrets = OLD;\n}\n";
    let span = sp(2, 5, 2, 18);
    let secrets = one_secret("s", &[], "P");
    let out = patched_text(src, span, &secrets);
    assert_eq!(
        out,
        "{\n    secrets = {\n        s.hosts = [ ];\n        s.enc = ''\n            P'';\n    };\n}\n"
    );
    assert!(out.contains("\n            P''"));
}

// The sibling path replaces the extension with the `new` variant and
// never names the source file itself.
#[test]
fn sibling_paths() {
    assert_eq!(sibling_path("foo.nix"), "foo.new.nix");
    assert_eq!(sibling_path("dir/foo.nix"), "dir/foo.new.nix");
    assert_eq!(sibling_path("noext"), "noext.new.nix");
    assert_eq!(sibling_path("a.b/c"), "a.b/c.new.nix");
    assert_eq!(sibling_path("dir/.hidden"), "dir/.hidden.new.nix");
}

// `write` pairs the sibling path with the patched text.
#[test]
fn write_produces_sibling_and_patch() {
    let src = "{\n  secrets = OLD;\n}\n";
    let cf = ConfigFile {
        path: "cfg.nix".to_string(),
        source: src.to_string(),
        secrets_span: sp(2, 3, 2, 16),
        data: ConfigFileData {
            admins: vec![],
            hosts: vec![],
            derivations: vec![],
            secrets: one_secret("db", &["a"], "XX"),
        },
    };
    let (target, contents) = cf.write();
    assert_eq!(target, "cfg.new.nix");
    assert!(contents.starts_with("{\n  secrets = {\n"));
    assert!(contents.ends_with(";\n}\n"));
}

// Payload trimming removes leading and trailing whitespace only.
#[test]
fn trim_behaviour() {
    assert_eq!(trim_str(" \n XXXX \n "), "XXXX");
    assert_eq!(trim_str("a b"), "a b");
    assert_eq!(trim_str("   "), "");
    assert_eq!(trim_str(""), "");
    assert_eq!(trim_str("\tA\nB\t"), "A\nB");
}

// The sample renderer produces a block closed by its brace.
#[test]
fn sample_block() {
    let out = nixsec::test();
    assert!(out.ends_with('}'));
    assert!(out.starts_with("secrets = {"));
}
