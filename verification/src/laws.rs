//! Properties of the library stated on their own: what splicing preserves,
//! how the rendered indentation follows the source, and how the lenient
//! list extraction treats a malformed element.

use vstd::prelude::*;

use crate::ast::{Expr, Span};
use crate::data::SecretModel;
use crate::extract::{str_value, strlist_fold};
use crate::patch::{
    indent_before, lemma_indent_scan, lemma_resolve_bounds, patched_model, span_end_off,
    span_start_off,
};
use crate::render::{enc_body, render_secrets};

verus! {

/// Isolation: the patched document changes nothing outside the recorded
/// span. Every character before the span's start offset keeps its place,
/// and every character from the span's end offset on reappears unchanged
/// after the rendered block, shifted by the block's length.
pub proof fn lemma_write_isolation(s: Seq<char>, span: Span, secrets: Seq<(Seq<char>, SecretModel)>)
    ensures
        patched_model(s, span, secrets).len() == span_start_off(s, span) + render_secrets(
            secrets,
            indent_before(s, span_start_off(s, span)),
        ).len() + (s.len() - span_end_off(s, span)),
        forall|i: int| 0 <= i < span_start_off(s, span) ==> patched_model(s, span, secrets)[i]
            == s[i],
        forall|i: int| span_end_off(s, span) <= i < s.len() ==> patched_model(s, span, secrets)[
            span_start_off(s, span) + render_secrets(
                secrets,
                indent_before(s, span_start_off(s, span)),
            ).len() + (i - span_end_off(s, span))
        ] == s[i],
{
    lemma_resolve_bounds(s, 0, span.start.line as int, span.start.column as int);
    lemma_resolve_bounds(s, 0, span.end.line as int, span.end.column as int);
    let a = span_start_off(s, span);
    let b = span_end_off(s, span);
    let r = render_secrets(secrets, indent_before(s, a));
    let out = patched_model(s, span, secrets);
    assert(out == s.subrange(0, a) + r + s.subrange(b, s.len() as int));
    assert forall|i: int| 0 <= i < a implies out[i] == s[i] by {
        assert(out[i] == s.subrange(0, a)[i]);
    }
    assert forall|i: int| b <= i < s.len() implies out[a + r.len() + (i - b)] == s[i] by {
        assert(out[a + r.len() + (i - b)] == s.subrange(b, s.len() as int)[i - b]);
    }
}

/// Indentation fidelity, first half: when the span's start is preceded on
/// its line by exactly `c` space characters, the patcher's inferred base
/// indentation is `c`, so the block is rendered at base width `c`.
pub proof fn lemma_indent_fidelity(
    s: Seq<char>,
    span: Span,
    secrets: Seq<(Seq<char>, SecretModel)>,
    c: int,
)
    requires
        0 <= c <= span_start_off(s, span),
        span_start_off(s, span) <= s.len(),
        forall|j: int| span_start_off(s, span) - c <= j < span_start_off(s, span) ==> s[j] == ' ',
        span_start_off(s, span) - c == 0 || s[span_start_off(s, span) - c - 1] != ' ',
    ensures
        indent_before(s, span_start_off(s, span)) == c,
        patched_model(s, span, secrets) == s.subrange(0, span_start_off(s, span))
            + render_secrets(secrets, c as nat) + s.subrange(span_end_off(s, span), s.len() as int),
{
    lemma_indent_scan(s, span_start_off(s, span) - c, span_start_off(s, span));
}

/// Indentation fidelity, second half: around every line break of the
/// payload the renderer emits the break and then the tab, so each payload
/// line after the first starts with the tab (three base widths in
/// `render_secrets`).
pub proof fn lemma_enc_body_line_indent(
    s1: Seq<char>,
    s2: Seq<char>,
    tab: Seq<char>,
    acc: Seq<char>,
)
    ensures
        enc_body(s1 + seq!['\n'] + s2, tab, acc) == enc_body(
            s2,
            tab,
            enc_body(s1, tab, acc) + seq!['\n'] + tab,
        ),
    decreases s1.len(),
{
    let t = s1 + seq!['\n'] + s2;
    if s1.len() == 0 {
        assert(t =~= seq!['\n'] + s2);
        assert(t[0] == '\n');
        assert(t.drop_first() =~= s2);
        assert(enc_body(s1, tab, acc) == acc);
    } else {
        assert(t[0] == s1[0]);
        assert(t.drop_first() =~= s1.drop_first() + seq!['\n'] + s2);
        let acc2 = if s1[0] == '\n' {
            acc + seq!['\n'] + tab
        } else {
            acc.push(s1[0])
        };
        lemma_enc_body_line_indent(s1.drop_first(), s2, tab, acc2);
    }
}

/// Lenient extraction: a list element that is not a plain string literal
/// is dropped, and dropping it is all that happens — the extraction of the
/// list equals the extraction of the list with that element removed.
pub proof fn lemma_lenient_list(es: Seq<Expr>, i: int, acc: Seq<Seq<char>>)
    requires
        0 <= i < es.len(),
        str_value(es[i]) is None,
    ensures
        strlist_fold(es, acc) == strlist_fold(es.remove(i), acc),
    decreases es.len(),
{
    if i == 0 {
        assert(es.remove(0) =~= es.drop_first());
    } else {
        assert(es.remove(i)[0] == es[0]);
        assert(es.remove(i).drop_first() =~= es.drop_first().remove(i - 1));
        let acc2 = match str_value(es[0]) {
            Some(s) => acc.push(s),
            None => acc,
        };
        lemma_lenient_list(es.drop_first(), i - 1, acc2);
    }
}

} // verus!
