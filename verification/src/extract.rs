//! The extractor: walks the top-level attribute set of a parsed document and
//! builds the typed data model, recording the exact source span of the
//! `secrets` binding.
//!
//! The policy is lenient: a child binding that does not have the expected
//! shape is skipped and every well-formed sibling is kept. The two fatal
//! cases are a root that is not an attribute set and a document without a
//! top-level `secrets` binding. Inside the `derivations` section a value
//! that is not a destructured function stops that section's walk early,
//! returning what was accumulated before it.

use vstd::prelude::*;

use crate::ast::{Bind, Expr, Span, StrPart};
use crate::data::{
    lemma_strmap_view, lemma_secrets_view, lemma_derivs_view, lemma_str_vec_dv,
    lemma_strmap_key_at, lemma_strmap_key_absent, lemma_secrets_key_at, lemma_secrets_key_absent,
    lemma_derivs_key_at, lemma_derivs_key_absent,
    key_index, lemma_key_index, secrets_view, strmap_view, derivs_view, ConfigFileData,
    Derivation, DerivationModel, Secret, SecretModel,
};
use crate::text::{str_eq, trim_of, trim_str};
use vstd::pervasive::VecAdditionalExecFns;

verus! {

/// Why a document cannot be used as a secrets document.
#[derive(Clone, Copy, Debug, PartialEq, Eq, Structural)]
pub enum ExtractError {
    /// The root expression is not an attribute set.
    NotAMap,
    /// The top-level attribute set has no `secrets` binding.
    MissingSecretsKey,
}

// ---------------------------------------------------------------------------
// Shape helpers over the expression model.

/// True when `parts` is exactly one raw, non-interpolated part.
pub open spec fn is_raw1(parts: Seq<StrPart>) -> bool {
    parts.len() == 1 && parts[0] is Raw
}

/// The text of the single raw part.
pub open spec fn raw1_content(parts: Seq<StrPart>) -> Seq<char>
    recommends
        is_raw1(parts),
{
    match parts[0] {
        StrPart::Raw { content, .. } => content@,
        StrPart::Dynamic => Seq::empty(),
    }
}

/// The source span of the single raw part.
pub open spec fn raw1_span(parts: Seq<StrPart>) -> Span
    recommends
        is_raw1(parts),
{
    match parts[0] {
        StrPart::Raw { span, .. } => span,
        StrPart::Dynamic => Span { start: crate::ast::Pos { line: 1, column: 1 }, end: crate::ast::Pos { line: 1, column: 1 } },
    }
}

/// The content of a plain (non-interpolated, single-part) string literal.
pub open spec fn str_value(e: Expr) -> Option<Seq<char>> {
    match e {
        Expr::StrExpr { parts, .. } => if is_raw1(parts@) {
            Some(raw1_content(parts@))
        } else {
            None
        },
        _ => None,
    }
}

/// The raw content of a plain indented-string literal.
pub open spec fn indent_str_value(e: Expr) -> Option<Seq<char>> {
    match e {
        Expr::IndentStrExpr { parts, .. } => if is_raw1(parts@) {
            Some(raw1_content(parts@))
        } else {
            None
        },
        _ => None,
    }
}

/// The argument names of a function literal with a destructured head.
pub open spec fn deriv_params(e: Expr) -> Option<Seq<Seq<char>>> {
    match e {
        Expr::Lambda { destructured, params, .. } => if destructured {
            Some(params.deep_view())
        } else {
            None
        },
        _ => None,
    }
}

// ---------------------------------------------------------------------------
// String maps (admins, hosts).

/// Insert-or-overwrite in an association list: a present key keeps its
/// position and gets the new value, an absent one is appended.
pub open spec fn upsert(
    m: Seq<(Seq<char>, Seq<char>)>,
    k: Seq<char>,
    v: Seq<char>,
) -> Seq<(Seq<char>, Seq<char>)> {
    let i = key_index(m, k);
    if i < 0 {
        m.push((k, v))
    } else {
        m.update(i, (k, v))
    }
}

/// One binding of a string-map section: a single raw key bound to a plain
/// string literal is inserted, any other shape is skipped.
pub open spec fn strmap_step(
    acc: Seq<(Seq<char>, Seq<char>)>,
    b: Bind,
) -> Seq<(Seq<char>, Seq<char>)> {
    match b {
        Bind::KeyValue { key, value } => if is_raw1(key@) {
            match str_value(*value) {
                Some(v) => upsert(acc, raw1_content(key@), v),
                None => acc,
            }
        } else {
            acc
        },
        Bind::Other => acc,
    }
}

/// The string-map section, folded binding by binding.
pub open spec fn strmap_fold(
    bs: Seq<Bind>,
    acc: Seq<(Seq<char>, Seq<char>)>,
) -> Seq<(Seq<char>, Seq<char>)>
    decreases bs.len(),
{
    if bs.len() == 0 {
        acc
    } else {
        strmap_fold(bs.drop_first(), strmap_step(acc, bs[0]))
    }
}

/// What `read_string_object` extracts: the fold over an attribute set's
/// bindings, and nothing from a value of any other shape.
pub open spec fn string_map_of(e: Expr) -> Seq<(Seq<char>, Seq<char>)> {
    match e {
        Expr::AttrSet { bindings, .. } => strmap_fold(bindings@, Seq::empty()),
        _ => Seq::empty(),
    }
}

// ---------------------------------------------------------------------------
// String lists (a secret's hosts).

/// One element of a string list: plain string literals are kept in order,
/// anything else (an interpolated string, a number, a nested list) is
/// dropped.
pub open spec fn strlist_fold(es: Seq<Expr>, acc: Seq<Seq<char>>) -> Seq<Seq<char>>
    decreases es.len(),
{
    if es.len() == 0 {
        acc
    } else {
        let acc2 = match str_value(es[0]) {
            Some(s) => acc.push(s),
            None => acc,
        };
        strlist_fold(es.drop_first(), acc2)
    }
}

/// What `read_string_list` extracts.
pub open spec fn string_list_of(e: Expr) -> Seq<Seq<char>> {
    match e {
        Expr::ListExpr { elements, .. } => strlist_fold(elements@, Seq::empty()),
        _ => Seq::empty(),
    }
}

// ---------------------------------------------------------------------------
// Secrets.

/// The secret stored under `k`, or the default zero-value secret.
pub open spec fn sm_get(m: Seq<(Seq<char>, SecretModel)>, k: Seq<char>) -> SecretModel {
    let i = key_index(m, k);
    if i < 0 {
        SecretModel { hosts: Seq::empty(), enc: Seq::empty() }
    } else {
        m[i].1
    }
}

/// Store `s` under `k`, keeping a present key's position.
pub open spec fn sm_put(
    m: Seq<(Seq<char>, SecretModel)>,
    k: Seq<char>,
    s: SecretModel,
) -> Seq<(Seq<char>, SecretModel)> {
    let i = key_index(m, k);
    if i < 0 {
        m.push((k, s))
    } else {
        m.update(i, (k, s))
    }
}

/// One binding of the secrets section. Only two-part raw keys `name.attr`
/// count; referencing `name.hosts` or `name.enc` creates the entry lazily,
/// and a malformed value leaves the referenced entry at its previous (or
/// default) state.
pub open spec fn secrets_step(
    acc: Seq<(Seq<char>, SecretModel)>,
    b: Bind,
) -> Seq<(Seq<char>, SecretModel)> {
    match b {
        Bind::KeyValue { key, value } => if key@.len() == 2 && key@[0] is Raw && key@[1] is Raw {
            let name = raw1_content(key@);
            let attr = raw1_content(key@.drop_first());
            if attr == "hosts"@ {
                sm_put(acc, name, SecretModel { hosts: string_list_of(*value), enc: sm_get(acc, name).enc })
            } else if attr == "enc"@ {
                match indent_str_value(*value) {
                    Some(raw) => sm_put(acc, name, SecretModel { hosts: sm_get(acc, name).hosts, enc: trim_of(raw) }),
                    None => sm_put(acc, name, sm_get(acc, name)),
                }
            } else {
                acc
            }
        } else {
            acc
        },
        Bind::Other => acc,
    }
}

/// The secrets section, folded binding by binding.
pub open spec fn secrets_fold(
    bs: Seq<Bind>,
    acc: Seq<(Seq<char>, SecretModel)>,
) -> Seq<(Seq<char>, SecretModel)>
    decreases bs.len(),
{
    if bs.len() == 0 {
        acc
    } else {
        secrets_fold(bs.drop_first(), secrets_step(acc, bs[0]))
    }
}

/// What `get_secrets` extracts.
pub open spec fn secrets_of(e: Expr) -> Seq<(Seq<char>, SecretModel)> {
    match e {
        Expr::AttrSet { bindings, .. } => secrets_fold(bindings@, Seq::empty()),
        _ => Seq::empty(),
    }
}

// ---------------------------------------------------------------------------
// Derivations.

/// Record a derivation's argument names: an absent name is appended, a
/// present one has the names appended to its argument list.
pub open spec fn dm_add(
    m: Seq<(Seq<char>, DerivationModel)>,
    k: Seq<char>,
    ps: Seq<Seq<char>>,
) -> Seq<(Seq<char>, DerivationModel)> {
    let i = key_index(m, k);
    if i < 0 {
        m.push((k, DerivationModel { input: ps }))
    } else {
        m.update(i, (k, DerivationModel { input: m[i].1.input + ps }))
    }
}

/// The derivations section, folded binding by binding; a single-raw-keyed
/// value that is not a destructured function stops the walk and keeps only
/// what was accumulated before it.
pub open spec fn derivs_fold(
    bs: Seq<Bind>,
    acc: Seq<(Seq<char>, DerivationModel)>,
) -> Seq<(Seq<char>, DerivationModel)>
    decreases bs.len(),
{
    if bs.len() == 0 {
        acc
    } else {
        match bs[0] {
            Bind::KeyValue { key, value } => if is_raw1(key@) {
                match deriv_params(*value) {
                    Some(ps) => derivs_fold(bs.drop_first(), dm_add(acc, raw1_content(key@), ps)),
                    None => acc,
                }
            } else {
                derivs_fold(bs.drop_first(), acc)
            },
            Bind::Other => derivs_fold(bs.drop_first(), acc),
        }
    }
}

/// What `get_derivations` extracts.
pub open spec fn derivations_of(e: Expr) -> Seq<(Seq<char>, DerivationModel)> {
    match e {
        Expr::AttrSet { bindings, .. } => derivs_fold(bindings@, Seq::empty()),
        _ => Seq::empty(),
    }
}

// ---------------------------------------------------------------------------
// The top level.

/// The key of a top-level binding, when it is a single raw identifier.
pub open spec fn top_key(b: Bind) -> Option<Seq<char>> {
    match b {
        Bind::KeyValue { key, .. } => if is_raw1(key@) {
            Some(raw1_content(key@))
        } else {
            None
        },
        Bind::Other => None,
    }
}

/// The bound value of a top-level binding.
pub open spec fn top_value(b: Bind) -> Expr
    recommends
        b is KeyValue,
{
    match b {
        Bind::KeyValue { value, .. } => *value,
        Bind::Other => Expr::Opaque { span: Span { start: crate::ast::Pos { line: 1, column: 1 }, end: crate::ast::Pos { line: 1, column: 1 } } },
    }
}

/// The admins section after all top-level bindings: the last `admins`
/// binding wins, starting from `cur`.
pub open spec fn top_section(
    bs: Seq<Bind>,
    name: Seq<char>,
    cur: Seq<(Seq<char>, Seq<char>)>,
) -> Seq<(Seq<char>, Seq<char>)>
    decreases bs.len(),
{
    if bs.len() == 0 {
        cur
    } else {
        let cur2 = if top_key(bs[0]) == Some(name) {
            string_map_of(top_value(bs[0]))
        } else {
            cur
        };
        top_section(bs.drop_first(), name, cur2)
    }
}

/// The secrets mapping after all top-level bindings.
pub open spec fn top_secrets(
    bs: Seq<Bind>,
    cur: Seq<(Seq<char>, SecretModel)>,
) -> Seq<(Seq<char>, SecretModel)>
    decreases bs.len(),
{
    if bs.len() == 0 {
        cur
    } else {
        let cur2 = if top_key(bs[0]) == Some("secrets"@) {
            secrets_of(top_value(bs[0]))
        } else {
            cur
        };
        top_secrets(bs.drop_first(), cur2)
    }
}

/// The derivations mapping after all top-level bindings.
pub open spec fn top_derivations(
    bs: Seq<Bind>,
    cur: Seq<(Seq<char>, DerivationModel)>,
) -> Seq<(Seq<char>, DerivationModel)>
    decreases bs.len(),
{
    if bs.len() == 0 {
        cur
    } else {
        let cur2 = if top_key(bs[0]) == Some("derivations"@) {
            derivations_of(top_value(bs[0]))
        } else {
            cur
        };
        top_derivations(bs.drop_first(), cur2)
    }
}

/// The span of a top-level binding's key part together with its value: from
/// the first character of the key token to the end of the bound value.
pub open spec fn binding_span(b: Bind) -> Span
    recommends
        b is KeyValue,
{
    match b {
        Bind::KeyValue { key, value } => Span {
            start: raw1_span(key@).start,
            end: value.spec_span().end,
        },
        Bind::Other => Span { start: crate::ast::Pos { line: 1, column: 1 }, end: crate::ast::Pos { line: 1, column: 1 } },
    }
}

/// The recorded `secrets` span after all top-level bindings: the last
/// `secrets` binding wins.
pub open spec fn top_span(bs: Seq<Bind>, cur: Option<Span>) -> Option<Span>
    decreases bs.len(),
{
    if bs.len() == 0 {
        cur
    } else {
        let cur2 = if top_key(bs[0]) == Some("secrets"@) {
            Some(binding_span(bs[0]))
        } else {
            cur
        };
        top_span(bs.drop_first(), cur2)
    }
}

// ---------------------------------------------------------------------------
// Executable helpers.

/// The single raw part of `parts`, when that is its exact shape.
pub fn single_raw(parts: &Vec<StrPart>) -> (r: Option<&StrPart>)
    ensures
        match r {
            Some(p) => is_raw1(parts@) && *p == parts@[0],
            None => !is_raw1(parts@),
        },
{
    if parts.len() == 1 {
        match &parts[0] {
            StrPart::Raw { .. } => Some(&parts[0]),
            StrPart::Dynamic => None,
        }
    } else {
        None
    }
}

/// The content of a plain string literal, when `e` is one.
pub fn expr_str_value(e: &Expr) -> (r: Option<&String>)
    ensures
        match r {
            Some(s) => str_value(*e) == Some(s@),
            None => str_value(*e) is None,
        },
{
    match e {
        Expr::StrExpr { parts, .. } => match single_raw(parts) {
            Some(p) => match p {
                StrPart::Raw { content, .. } => Some(content),
                StrPart::Dynamic => None,
            },
            None => None,
        },
        _ => None,
    }
}

/// Insert-or-overwrite on the executable association list.
fn strmap_insert(m: &mut Vec<(String, String)>, k: String, v: String)
    ensures
        strmap_view(final(m)@) == upsert(strmap_view(old(m)@), k@, v@),
{
    let ghost m0 = strmap_view(old(m)@);
    let mut i: usize = 0;
    while i < m.len()
        invariant
            i <= m.len(),
            m@ == old(m)@,
            m0 == strmap_view(old(m)@),
            forall|j: int| 0 <= j < i ==> m@[j].0@ != k@,
        decreases m.len() - i,
    {
        if m[i].0 == k {
            proof {
                lemma_strmap_key_at(m@, k@, i as int);
            }
            m.set(i, (k, v));
            proof {
                lemma_strmap_view(m@);
                lemma_strmap_view(old(m)@);
                assert(strmap_view(m@) =~= m0.update(i as int, (k@, v@)));
            }
            return ;
        }
        i += 1;
    }
    proof {
        lemma_strmap_key_absent(m@, k@);
    }
    m.push((k, v));
    proof {
        lemma_strmap_view(m@);
        lemma_strmap_view(old(m)@);
        assert(strmap_view(m@) =~= m0.push((k@, v@)));
    }
}

/// Read an `admins`/`hosts`-style section: for every child binding with a
/// single raw key and a plain string value, insert name -> string; skip
/// everything else. A value that is not an attribute set yields the empty
/// mapping.
pub fn read_string_object(expr: &Expr) -> (r: Vec<(String, String)>)
    ensures
        strmap_view(r@) == string_map_of(*expr),
{
    let mut result: Vec<(String, String)> = Vec::new();
    match expr {
        Expr::AttrSet { bindings, .. } => {
            let ghost bs = bindings@;
            proof {
                assert(bs.skip(0) =~= bs);
                assert(strmap_view(result@) =~= Seq::empty());
            }
            let mut i: usize = 0;
            while i < bindings.len()
                invariant
                    i <= bindings.len(),
                    bs == bindings@,
                    strmap_fold(bs, Seq::empty()) == strmap_fold(
                        bs.skip(i as int),
                        strmap_view(result@),
                    ),
                decreases bindings.len() - i,
            {
                proof {
                    assert(bs.skip(i as int).drop_first() =~= bs.skip(i as int + 1));
                    assert(bs.skip(i as int)[0] == bs[i as int]);
                }
                match &bindings[i] {
                    Bind::KeyValue { key, value } => {
                        match single_raw(key) {
                            Some(p) => {
                                let name = match p {
                                    StrPart::Raw { content, .. } => content,
                                    StrPart::Dynamic => unreached(),
                                };
                                match expr_str_value(value) {
                                    Some(v) => {
                                        strmap_insert(&mut result, name.clone(), v.clone());
                                    },
                                    None => {},
                                }
                            },
                            None => {},
                        }
                    },
                    Bind::Other => {},
                }
                i += 1;
            }
            proof {
                assert(bs.skip(bs.len() as int) =~= Seq::<Bind>::empty());
            }
            result
        },
        _ => result,
    }
}

/// Read a list of host names: plain string elements are kept in order,
/// every other element is dropped. A value that is not a list yields the
/// empty list.
pub fn read_string_list(expr: &Expr) -> (r: Vec<String>)
    ensures
        r.deep_view() == string_list_of(*expr),
{
    let mut result: Vec<String> = Vec::new();
    match expr {
        Expr::ListExpr { elements, .. } => {
            let ghost es = elements@;
            proof {
                assert(es.skip(0) =~= es);
                assert(result.deep_view() =~= Seq::<Seq<char>>::empty());
            }
            let mut i: usize = 0;
            while i < elements.len()
                invariant
                    i <= elements.len(),
                    es == elements@,
                    strlist_fold(es, Seq::empty()) == strlist_fold(
                        es.skip(i as int),
                        result.deep_view(),
                    ),
                decreases elements.len() - i,
            {
                proof {
                    assert(es.skip(i as int).drop_first() =~= es.skip(i as int + 1));
                    assert(es.skip(i as int)[0] == es[i as int]);
                }
                match expr_str_value(&elements[i]) {
                    Some(s) => {
                        let ghost before = result.deep_view();
                        result.push(s.clone());
                        proof {
                            assert(result.deep_view() =~= before.push(s@));
                        }
                    },
                    None => {},
                }
                i += 1;
            }
            proof {
                assert(es.skip(es.len() as int) =~= Seq::<Expr>::empty());
            }
            result
        },
        _ => result,
    }
}

/// The raw content of a plain indented-string literal, when `e` is one.
pub fn expr_indent_str_value(e: &Expr) -> (r: Option<&String>)
    ensures
        match r {
            Some(s) => indent_str_value(*e) == Some(s@),
            None => indent_str_value(*e) is None,
        },
{
    match e {
        Expr::IndentStrExpr { parts, .. } => match single_raw(parts) {
            Some(p) => match p {
                StrPart::Raw { content, .. } => Some(content),
                StrPart::Dynamic => None,
            },
            None => None,
        },
        _ => None,
    }
}

/// The argument names of a destructured function literal, when `e` is one.
pub fn lambda_params(e: &Expr) -> (r: Option<&Vec<String>>)
    ensures
        match r {
            Some(ps) => deriv_params(*e) == Some(ps.deep_view()),
            None => deriv_params(*e) is None,
        },
{
    match e {
        Expr::Lambda { destructured, params, .. } => if *destructured {
            Some(params)
        } else {
            None
        },
        _ => None,
    }
}

/// The two raw parts of a two-part attribute path `name.attr`.
pub fn two_raw<'a>(key: &'a Vec<StrPart>) -> (r: Option<(&'a String, &'a String)>)
    ensures
        match r {
            Some(p) => key@.len() == 2 && key@[0] is Raw && key@[1] is Raw
                && p.0@ == raw1_content(key@) && p.1@ == raw1_content(key@.drop_first()),
            None => !(key@.len() == 2 && key@[0] is Raw && key@[1] is Raw),
        },
{
    if key.len() == 2 {
        match (&key[0], &key[1]) {
            (StrPart::Raw { content: n, .. }, StrPart::Raw { content: a, .. }) => {
                proof {
                    assert(key@.drop_first()[0] == key@[1]);
                }
                Some((n, a))
            },
            _ => None,
        }
    } else {
        None
    }
}

/// Index of `k` in the secrets association list.
fn secrets_find(m: &Vec<(String, Secret)>, k: &String) -> (r: Option<usize>)
    ensures
        match r {
            Some(i) => i < m@.len() && key_index(secrets_view(m@), k@) == i as int,
            None => key_index(secrets_view(m@), k@) == -1,
        },
{
    let mut i: usize = 0;
    while i < m.len()
        invariant
            i <= m.len(),
            forall|j: int| 0 <= j < i ==> m@[j].0@ != k@,
        decreases m.len() - i,
    {
        if m[i].0 == *k {
            proof {
                lemma_secrets_key_at(m@, k@, i as int);
            }
            return Some(i);
        }
        i += 1;
    }
    proof {
        lemma_secrets_key_absent(m@, k@);
    }
    None
}

/// Assign the hosts list of the secret `k`, creating the entry lazily.
fn secrets_set_hosts(m: &mut Vec<(String, Secret)>, k: String, hosts: Vec<String>)
    ensures
        secrets_view(final(m)@) == sm_put(
            secrets_view(old(m)@),
            k@,
            SecretModel {
                hosts: hosts.deep_view(),
                enc: sm_get(secrets_view(old(m)@), k@).enc,
            },
        ),
{
    let ghost m0 = secrets_view(old(m)@);
    match secrets_find(m, &k) {
        Some(i) => {
            let enc = m[i].1.enc.clone();
            proof {
                lemma_secrets_view(m@);
                assert(m0[i as int] == (m@[i as int].0@, m@[i as int].1@));
            }
            m.set(i, (k, Secret { hosts, enc }));
            proof {
                lemma_secrets_view(m@);
                lemma_secrets_view(old(m)@);
                assert(secrets_view(m@) =~= m0.update(
                    key_index(m0, k@),
                    (k@, SecretModel { hosts: hosts.deep_view(), enc: sm_get(m0, k@).enc }),
                ));
            }
        },
        None => {
            m.push((k, Secret { hosts, enc: String::new() }));
            proof {
                lemma_secrets_view(m@);
                lemma_secrets_view(old(m)@);
                assert(secrets_view(m@) =~= m0.push(
                    (k@, SecretModel { hosts: hosts.deep_view(), enc: sm_get(m0, k@).enc }),
                ));
            }
        },
    }
}

/// Assign the (already trimmed) payload of the secret `k`, creating the
/// entry lazily.
fn secrets_set_enc(m: &mut Vec<(String, Secret)>, k: String, enc: String)
    ensures
        secrets_view(final(m)@) == sm_put(
            secrets_view(old(m)@),
            k@,
            SecretModel {
                hosts: sm_get(secrets_view(old(m)@), k@).hosts,
                enc: enc@,
            },
        ),
{
    let ghost m0 = secrets_view(old(m)@);
    match secrets_find(m, &k) {
        Some(i) => {
            let mut hosts: Vec<String> = Vec::new();
            let n = m[i].1.hosts.len();
            let mut j: usize = 0;
            while j < n
                invariant
                    j <= n,
                    m@ == old(m)@,
                    m0 == secrets_view(old(m)@),
                    i < m@.len(),
                    n == m@[i as int].1.hosts@.len(),
                    hosts@.len() == j,
                    forall|t: int| 0 <= t < j ==> hosts@[t]@ == m@[i as int].1.hosts@[t]@,
                decreases n - j,
            {
                hosts.push(m[i].1.hosts[j].clone());
                j += 1;
            }
            proof {
                lemma_secrets_view(m@);
                lemma_str_vec_dv(hosts);
                lemma_str_vec_dv(m@[i as int].1.hosts);
                assert(hosts.deep_view() =~= m@[i as int].1.hosts.deep_view());
                assert(m0[i as int] == (m@[i as int].0@, m@[i as int].1@));
            }
            m.set(i, (k, Secret { hosts, enc }));
            proof {
                lemma_secrets_view(m@);
                lemma_secrets_view(old(m)@);
                assert(secrets_view(m@) =~= m0.update(
                    key_index(m0, k@),
                    (k@, SecretModel { hosts: sm_get(m0, k@).hosts, enc: enc@ }),
                ));
            }
        },
        None => {
            let hosts0: Vec<String> = Vec::new();
            proof {
                lemma_str_vec_dv(hosts0);
                assert(hosts0.deep_view() =~= Seq::<Seq<char>>::empty());
            }
            m.push((k, Secret { hosts: hosts0, enc }));
            proof {
                lemma_secrets_view(m@);
                lemma_secrets_view(old(m)@);
                assert(secrets_view(m@) =~= m0.push(
                    (k@, SecretModel { hosts: sm_get(m0, k@).hosts, enc: enc@ }),
                ));
            }
        },
    }
}

/// Create the entry for `k` lazily, changing nothing else.
fn secrets_touch(m: &mut Vec<(String, Secret)>, k: String)
    ensures
        secrets_view(final(m)@) == sm_put(
            secrets_view(old(m)@),
            k@,
            sm_get(secrets_view(old(m)@), k@),
        ),
{
    let ghost m0 = secrets_view(old(m)@);
    match secrets_find(m, &k) {
        Some(i) => {
            proof {
                lemma_key_index(m0, k@);
                lemma_secrets_view(m@);
                assert(m0.update(key_index(m0, k@), (k@, sm_get(m0, k@))) =~= m0);
            }
        },
        None => {
            let hosts0: Vec<String> = Vec::new();
            proof {
                lemma_str_vec_dv(hosts0);
                assert(hosts0.deep_view() =~= Seq::<Seq<char>>::empty());
            }
            m.push((k, Secret { hosts: hosts0, enc: String::new() }));
            proof {
                lemma_secrets_view(m@);
                lemma_secrets_view(old(m)@);
                assert(secrets_view(m@) =~= m0.push((k@, sm_get(m0, k@))));
            }
        },
    }
}

/// Read the secrets section: every child binding with a two-part raw key
/// `name.hosts` or `name.enc` contributes to the secret `name`, created
/// lazily on first reference; everything else is skipped. A value that is
/// not an attribute set yields the empty mapping.
pub fn get_secrets(expr: &Expr) -> (r: Vec<(String, Secret)>)
    ensures
        secrets_view(r@) == secrets_of(*expr),
{
    let mut result: Vec<(String, Secret)> = Vec::new();
    match expr {
        Expr::AttrSet { bindings, .. } => {
            let ghost bs = bindings@;
            proof {
                assert(bs.skip(0) =~= bs);
                assert(secrets_view(result@) =~= Seq::empty());
            }
            let mut i: usize = 0;
            while i < bindings.len()
                invariant
                    i <= bindings.len(),
                    bs == bindings@,
                    secrets_fold(bs, Seq::empty()) == secrets_fold(
                        bs.skip(i as int),
                        secrets_view(result@),
                    ),
                decreases bindings.len() - i,
            {
                proof {
                    assert(bs.skip(i as int).drop_first() =~= bs.skip(i as int + 1));
                    assert(bs.skip(i as int)[0] == bs[i as int]);
                }
                match &bindings[i] {
                    Bind::KeyValue { key, value } => {
                        match two_raw(key) {
                            Some((name, attr)) => {
                                if str_eq(attr.as_str(), "hosts") {
                                    let hosts = read_string_list(value);
                                    secrets_set_hosts(&mut result, name.clone(), hosts);
                                } else if str_eq(attr.as_str(), "enc") {
                                    match expr_indent_str_value(value) {
                                        Some(raw) => {
                                            let t = trim_str(raw.as_str());
                                            secrets_set_enc(&mut result, name.clone(), t);
                                        },
                                        None => {
                                            secrets_touch(&mut result, name.clone());
                                        },
                                    }
                                }
                            },
                            None => {},
                        }
                    },
                    Bind::Other => {},
                }
                i += 1;
            }
            proof {
                assert(bs.skip(bs.len() as int) =~= Seq::<Bind>::empty());
            }
            result
        },
        _ => result,
    }
}

/// Record a derivation's argument names under `k`, extending a present
/// entry and appending an absent one.
fn derivs_add(m: &mut Vec<(String, Derivation)>, k: String, params: &Vec<String>)
    ensures
        derivs_view(final(m)@) == dm_add(derivs_view(old(m)@), k@, params.deep_view()),
{
    let ghost m0 = derivs_view(old(m)@);
    let mut i: usize = 0;
    while i < m.len()
        invariant
            i <= m.len(),
            m@ == old(m)@,
            m0 == derivs_view(old(m)@),
            forall|j: int| 0 <= j < i ==> m@[j].0@ != k@,
        decreases m@.len() - i,
    {
        if m[i].0 == k {
            let mut input: Vec<String> = Vec::new();
            let n = m[i].1.input.len();
            let mut j: usize = 0;
            while j < n
                invariant
                    j <= n,
                    m@ == old(m)@,
                    m0 == derivs_view(old(m)@),
                    i < m@.len(),
                    m@[i as int].0@ == k@,
                    n == m@[i as int].1.input@.len(),
                    input@.len() == j,
                    forall|t: int| 0 <= t < j ==> input@[t]@ == m@[i as int].1.input@[t]@,
                    forall|t: int| 0 <= t < i ==> m@[t].0@ != k@,
                decreases n - j,
            {
                input.push(m[i].1.input[j].clone());
                j += 1;
            }
            let np = params.len();
            let mut j2: usize = 0;
            while j2 < np
                invariant
                    j2 <= np,
                    m@ == old(m)@,
                    m0 == derivs_view(old(m)@),
                    i < m@.len(),
                    m@[i as int].0@ == k@,
                    forall|t: int| 0 <= t < i ==> m@[t].0@ != k@,
                    np == params@.len(),
                    input@.len() == m@[i as int].1.input@.len() + j2,
                    forall|t: int| 0 <= t < m@[i as int].1.input@.len()
                        ==> input@[t]@ == m@[i as int].1.input@[t]@,
                    forall|t: int| 0 <= t < j2
                        ==> input@[m@[i as int].1.input@.len() + t]@ == params@[t]@,
                decreases np - j2,
            {
                input.push(params[j2].clone());
                j2 += 1;
            }
            proof {
                lemma_derivs_key_at(m@, k@, i as int);
                lemma_derivs_view(m@);
                lemma_str_vec_dv(input);
                lemma_str_vec_dv(m@[i as int].1.input);
                lemma_str_vec_dv(*params);
                assert(input.deep_view() =~= m@[i as int].1.input.deep_view()
                    + params.deep_view());
                assert(m0[i as int] == (m@[i as int].0@, m@[i as int].1@));
            }
            m.set(i, (k, Derivation { input }));
            proof {
                lemma_derivs_view(m@);
                lemma_derivs_view(old(m)@);
                assert(derivs_view(m@) =~= m0.update(
                    i as int,
                    (k@, DerivationModel { input: m0[i as int].1.input + params.deep_view() }),
                ));
            }
            return ;
        }
        i += 1;
    }
    proof {
        lemma_derivs_key_absent(m@, k@);
    }
    let mut input: Vec<String> = Vec::new();
    let np = params.len();
    let mut j: usize = 0;
    while j < np
        invariant
            j <= np,
            np == params@.len(),
            input@.len() == j,
            forall|t: int| 0 <= t < j ==> input@[t]@ == params@[t]@,
        decreases np - j,
    {
        input.push(params[j].clone());
        j += 1;
    }
    proof {
        lemma_str_vec_dv(input);
        lemma_str_vec_dv(*params);
        assert(input.deep_view() =~= params.deep_view());
    }
    m.push((k, Derivation { input }));
    proof {
        lemma_derivs_view(m@);
        lemma_derivs_view(old(m)@);
        assert(derivs_view(m@) =~= m0.push((k@, DerivationModel { input: params.deep_view() })));
    }
}

/// Read the derivations section: each single-raw-keyed child binding must
/// be a destructured function literal, whose argument names become the
/// derivation's input; the first one that is not stops the walk and keeps
/// what was accumulated before it. A value that is not an attribute set
/// yields the empty mapping.
pub fn get_derivations(expr: &Expr) -> (r: Vec<(String, Derivation)>)
    ensures
        derivs_view(r@) == derivations_of(*expr),
{
    let mut result: Vec<(String, Derivation)> = Vec::new();
    match expr {
        Expr::AttrSet { bindings, .. } => {
            let ghost bs = bindings@;
            proof {
                assert(bs.skip(0) =~= bs);
                assert(derivs_view(result@) =~= Seq::empty());
            }
            let mut i: usize = 0;
            while i < bindings.len()
                invariant
                    i <= bindings.len(),
                    bs == bindings@,
                    derivations_of(*expr) == derivs_fold(bs, Seq::empty()),
                    derivs_fold(bs, Seq::empty()) == derivs_fold(
                        bs.skip(i as int),
                        derivs_view(result@),
                    ),
                decreases bindings.len() - i,
            {
                proof {
                    assert(bs.skip(i as int).drop_first() =~= bs.skip(i as int + 1));
                    assert(bs.skip(i as int)[0] == bs[i as int]);
                }
                match &bindings[i] {
                    Bind::KeyValue { key, value } => {
                        match single_raw(key) {
                            Some(p) => {
                                let name = match p {
                                    StrPart::Raw { content, .. } => content,
                                    StrPart::Dynamic => unreached(),
                                };
                                match lambda_params(value) {
                                    Some(ps) => {
                                        derivs_add(&mut result, name.clone(), ps);
                                    },
                                    None => {
                                        proof {
                                            assert(derivs_fold(
                                                bs.skip(i as int),
                                                derivs_view(result@),
                                            ) == derivs_view(result@));
                                        }
                                        return result;
                                    },
                                }
                            },
                            None => {},
                        }
                    },
                    Bind::Other => {},
                }
                i += 1;
            }
            proof {
                assert(bs.skip(bs.len() as int) =~= Seq::<Bind>::empty());
            }
            result
        },
        _ => result,
    }
}

/// The four recognized section names are pairwise different.
proof fn lemma_section_names_distinct()
    ensures
        "admins"@ != "hosts"@,
        "admins"@ != "derivations"@,
        "admins"@ != "secrets"@,
        "hosts"@ != "derivations"@,
        "hosts"@ != "secrets"@,
        "derivations"@ != "secrets"@,
{
    reveal_strlit("admins");
    reveal_strlit("hosts");
    reveal_strlit("derivations");
    reveal_strlit("secrets");
    assert("admins"@.len() == 6);
    assert("hosts"@.len() == 5);
    assert("derivations"@.len() == 11);
    assert("secrets"@.len() == 7);
}

/// The bindings of the root attribute set.
pub open spec fn root_bindings(e: Expr) -> Seq<Bind> {
    match e {
        Expr::AttrSet { bindings, .. } => bindings@,
        _ => Seq::empty(),
    }
}

/// Extract the typed data and the `secrets` span from the parsed root
/// expression. Fails with `NotAMap` when the root is not an attribute set
/// and with `MissingSecretsKey` when no top-level `secrets` binding exists;
/// succeeds on exactly every other input.
pub fn extract(root: &Expr) -> (r: Result<(ConfigFileData, Span), ExtractError>)
    ensures
        r is Ok <==> *root is AttrSet && top_span(root_bindings(*root), None) is Some,
        r == Err::<(ConfigFileData, Span), ExtractError>(ExtractError::NotAMap)
            <==> !(*root is AttrSet),
        match r {
            Ok(p) => {
                &&& strmap_view(p.0.admins@) == top_section(root_bindings(*root), "admins"@, Seq::empty())
                &&& strmap_view(p.0.hosts@) == top_section(root_bindings(*root), "hosts"@, Seq::empty())
                &&& derivs_view(p.0.derivations@) == top_derivations(root_bindings(*root), Seq::empty())
                &&& secrets_view(p.0.secrets@) == top_secrets(root_bindings(*root), Seq::empty())
                &&& top_span(root_bindings(*root), None) == Some(p.1)
            },
            Err(_) => true,
        },
{
    match root {
        Expr::AttrSet { bindings, .. } => {
            let mut data = ConfigFileData {
                admins: Vec::new(),
                hosts: Vec::new(),
                derivations: Vec::new(),
                secrets: Vec::new(),
            };
            let mut span_opt: Option<Span> = None;
            let ghost bs = bindings@;
            proof {
                assert(bs.skip(0) =~= bs);
                assert(strmap_view(data.admins@) =~= Seq::empty());
                assert(strmap_view(data.hosts@) =~= Seq::empty());
                assert(derivs_view(data.derivations@) =~= Seq::empty());
                assert(secrets_view(data.secrets@) =~= Seq::empty());
            }
            let mut i: usize = 0;
            while i < bindings.len()
                invariant
                    i <= bindings.len(),
                    bs == bindings@,
                    top_section(bs, "admins"@, Seq::empty()) == top_section(
                        bs.skip(i as int),
                        "admins"@,
                        strmap_view(data.admins@),
                    ),
                    top_section(bs, "hosts"@, Seq::empty()) == top_section(
                        bs.skip(i as int),
                        "hosts"@,
                        strmap_view(data.hosts@),
                    ),
                    top_derivations(bs, Seq::empty()) == top_derivations(
                        bs.skip(i as int),
                        derivs_view(data.derivations@),
                    ),
                    top_secrets(bs, Seq::empty()) == top_secrets(
                        bs.skip(i as int),
                        secrets_view(data.secrets@),
                    ),
                    top_span(bs, None) == top_span(bs.skip(i as int), span_opt),
                decreases bindings.len() - i,
            {
                proof {
                    lemma_section_names_distinct();
                    assert(bs.skip(i as int).drop_first() =~= bs.skip(i as int + 1));
                    assert(bs.skip(i as int)[0] == bs[i as int]);
                }
                match &bindings[i] {
                    Bind::KeyValue { key, value } => {
                        match single_raw(key) {
                            Some(p) => {
                                let name = match p {
                                    StrPart::Raw { content, .. } => content,
                                    StrPart::Dynamic => unreached(),
                                };
                                if str_eq(name.as_str(), "admins") {
                                    data.admins = read_string_object(value);
                                    proof {
                                        assert(top_key(bs[i as int]) == Some("admins"@));
                                        assert(strmap_view(data.admins@)
                                            == string_map_of(top_value(bs[i as int])));
                                    }
                                } else if str_eq(name.as_str(), "hosts") {
                                    data.hosts = read_string_object(value);
                                    proof {
                                        assert(top_key(bs[i as int]) == Some("hosts"@));
                                        assert(strmap_view(data.hosts@)
                                            == string_map_of(top_value(bs[i as int])));
                                    }
                                } else if str_eq(name.as_str(), "derivations") {
                                    data.derivations = get_derivations(value);
                                    proof {
                                        assert(top_key(bs[i as int]) == Some("derivations"@));
                                        assert(derivs_view(data.derivations@)
                                            == derivations_of(top_value(bs[i as int])));
                                    }
                                } else if str_eq(name.as_str(), "secrets") {
                                    let kspan = match p {
                                        StrPart::Raw { span, .. } => *span,
                                        StrPart::Dynamic => unreached(),
                                    };
                                    let vspan = value.span();
                                    span_opt = Some(Span { start: kspan.start, end: vspan.end });
                                    data.secrets = get_secrets(value);
                                    proof {
                                        assert(top_key(bs[i as int]) == Some("secrets"@));
                                        assert(secrets_view(data.secrets@)
                                            == secrets_of(top_value(bs[i as int])));
                                        assert(span_opt == Some(binding_span(bs[i as int])));
                                    }
                                } else {
                                    proof {
                                        assert(top_key(bs[i as int]) != Some("admins"@));
                                        assert(top_key(bs[i as int]) != Some("hosts"@));
                                        assert(top_key(bs[i as int]) != Some("derivations"@));
                                        assert(top_key(bs[i as int]) != Some("secrets"@));
                                    }
                                }
                            },
                            None => {},
                        }
                    },
                    Bind::Other => {},
                }
                i += 1;
            }
            proof {
                assert(bs.skip(bs.len() as int) =~= Seq::<Bind>::empty());
            }
            match span_opt {
                Some(sp) => Ok((data, sp)),
                None => Err(ExtractError::MissingSecretsKey),
            }
        },
        _ => Err(ExtractError::NotAMap),
    }
}

} // verus!
