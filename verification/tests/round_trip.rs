// Round-trip checks through the real language front-end: the rendered
// secrets block is embedded in a document, parsed by nixel, converted to
// the library's expression model, and re-extracted.

use nixel::ast::{Binding, FunctionArgument, Part, AST};
use nixsec::ast::{Bind, Expr, Pos, Span, StrPart};
use nixsec::data::Secret;
use nixsec::render::secrets_to_nix;
use nixsec::ConfigFile;

fn pos_span(line: usize, column: usize) -> Span {
    Span { start: Pos { line, column }, end: Pos { line, column } }
}

fn conv_part(p: &Part) -> StrPart {
    match p {
        Part::Raw { content, position } => StrPart::Raw {
            content: content.clone(),
            span: pos_span(position.line, position.column),
        },
        _ => StrPart::Dynamic,
    }
}

fn conv_binding(b: &Binding) -> Bind {
    match b {
        Binding::Binding { from, to } => {
            let key: Vec<StrPart> = from.parts.iter().map(conv_part).collect();
            // This front-end version collapses quoted and indented strings
            // into one string variant. The rendered block always writes
            // `enc` payloads in indented form, so restore that form here.
            let is_enc = matches!(
                key.last(),
                Some(StrPart::Raw { content, .. }) if content == "enc"
            );
            let value = match (is_enc, to.as_ref()) {
                (true, AST::String { parts, .. }) => Expr::IndentStrExpr {
                    parts: parts.iter().map(conv_part).collect(),
                    span: pos_span(1, 1),
                },
                _ => conv(to),
            };
            Bind::KeyValue { key, value: Box::new(value) }
        }
        Binding::Inherit { .. } => Bind::Other,
    }
}

fn conv(ast: &AST) -> Expr {
    match ast {
        AST::Map { bindings, position, .. } => Expr::AttrSet {
            bindings: bindings.iter().map(conv_binding).collect(),
            span: pos_span(position.line, position.column),
        },
        AST::List { elements, position } => Expr::ListExpr {
            elements: elements.iter().map(conv).collect(),
            span: pos_span(position.line, position.column),
        },
        AST::String { parts, position } => Expr::StrExpr {
            parts: parts.iter().map(conv_part).collect(),
            span: pos_span(position.line, position.column),
        },
        AST::Function { argument, position, .. } => match argument {
            FunctionArgument::Destructured { arguments, .. } => Expr::Lambda {
                destructured: true,
                params: arguments.iter().map(|a| a.identifier.clone()).collect(),
                span: pos_span(position.line, position.column),
            },
            FunctionArgument::Simple { .. } => Expr::Lambda {
                destructured: false,
                params: Vec::new(),
                span: pos_span(position.line, position.column),
            },
        },
        _ => Expr::Opaque { span: pos_span(1, 1) },
    }
}

fn parse_nix(input: &str) -> Expr {
    let rules = nixel::lexer::lexer_rules();
    let lexemes = nixel::deps::santiago::lexer::lex(&rules, input).expect("lexing failed");
    let filtered: Vec<_> = lexemes
        .iter()
        .filter(|l| l.kind != "COMMENT" && l.kind != "WS")
        .cloned()
        .collect();
    let grammar = nixel::grammar::grammar();
    let mut trees =
        nixel::deps::santiago::parser::parse(&grammar, &filtered).expect("parsing failed");
    let tree = trees.swap_remove(0);
    conv(&tree.as_abstract_syntax_tree())
}

fn extract_secrets(source: &str) -> Vec<(String, Vec<String>, String)> {
    let root = parse_nix(source);
    let cf = ConfigFile::from_ast("t.nix".to_string(), source.to_string(), &root)
        .expect("document should load");
    let mut out: Vec<(String, Vec<String>, String)> = cf
        .data
        .secrets
        .into_iter()
        .map(|(n, s)| (n, s.hosts, s.enc))
        .collect();
    out.sort();
    out
}

fn round_trip(mut secrets: Vec<(String, Vec<String>, String)>, indent: usize) {
    let mapping: Vec<(String, Secret)> = secrets
        .iter()
        .map(|(n, h, e)| (n.clone(), Secret { hosts: h.clone(), enc: e.clone() }))
        .collect();
    let block = secrets_to_nix(&mapping, indent);
    let document = format!("{{\n{};\n}}", block);
    let back = extract_secrets(&document);
    secrets.sort();
    assert_eq!(back, secrets);
}

// Round-trip: a rendered mapping re-parses to an equal mapping, for
// several entry counts and indentation widths.
#[test]
fn round_trip_one_entry() {
    round_trip(
        vec![("db".to_string(), vec!["a".to_string(), "b".to_string()], "XXXX".to_string())],
        0,
    );
}

#[test]
fn round_trip_indented() {
    for indent in [1usize, 2, 4, 7] {
        round_trip(
            vec![("db".to_string(), vec!["a".to_string()], "payload".to_string())],
            indent,
        );
    }
}

#[test]
fn round_trip_many_entries() {
    round_trip(
        vec![
            ("alpha".to_string(), vec!["h1".to_string(), "h2".to_string()], "AA".to_string()),
            ("beta".to_string(), Vec::new(), "BB".to_string()),
            ("gamma".to_string(), vec!["h3".to_string()], "CC".to_string()),
        ],
        2,
    );
}

// A multi-line payload survives the round trip at indentation 0, where no
// re-indentation is woven into the payload lines.
#[test]
fn round_trip_multiline_flat() {
    round_trip(vec![("s".to_string(), vec!["h".to_string()], "A\nB".to_string())], 0);
}

// The concrete document of the simple scenario, through the real parser.
#[test]
fn parse_simple_document() {
    let src = "{ secrets = { db.hosts = [\"a\" \"b\"]; db.enc = '' XXXX ''; }; }";
    let got = extract_secrets(src);
    assert_eq!(
        got,
        vec![("db".to_string(), vec!["a".to_string(), "b".to_string()], "XXXX".to_string())]
    );
}

// A derivations section with a non-destructured function stops that
// section early, through the real parser, without failing the document.
#[test]
fn parse_derivations_abort() {
    let src = "{\n  derivations = { ok = { x, y }: x; foo = x: x; };\n  secrets = { };\n}";
    let root = parse_nix(src);
    let cf = ConfigFile::from_ast("t.nix".to_string(), src.to_string(), &root).unwrap();
    let names: Vec<&str> = cf.data.derivations.iter().map(|(n, _)| n.as_str()).collect();
    assert_eq!(names, vec!["ok"]);
    assert_eq!(cf.data.derivations[0].1.input, vec!["x".to_string(), "y".to_string()]);
}

// Admins and hosts parse through the front-end into plain string maps.
#[test]
fn parse_admins_hosts() {
    let src = "{\n  admins = { alice = \"pk-a\"; };\n  hosts = { web = \"10.0.0.1\"; };\n  secrets = { };\n}";
    let root = parse_nix(src);
    let cf = ConfigFile::from_ast("t.nix".to_string(), src.to_string(), &root).unwrap();
    assert_eq!(cf.data.admins, vec![("alice".to_string(), "pk-a".to_string())]);
    assert_eq!(cf.data.hosts, vec![("web".to_string(), "10.0.0.1".to_string())]);
}

// A hosts list with an interpolated element, through the real parser,
// keeps the valid siblings only.
#[test]
fn parse_lenient_interpolation() {
    let src = "{ secrets = { s.hosts = [\"a\" \"${x}\" \"c\"]; }; }";
    let got = extract_secrets(src);
    assert_eq!(
        got,
        vec![("s".to_string(), vec!["a".to_string(), "c".to_string()], String::new())]
    );
}
