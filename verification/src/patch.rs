//! The patcher: resolves the recorded span's line/column endpoints to
//! character offsets by one forward walk, measures the indentation before
//! the span, and splices the freshly rendered secrets block between the
//! unchanged prefix and suffix of the original text.

use vstd::prelude::*;

use crate::ast::Span;
use crate::data::{secrets_view, Secret, SecretModel};
use crate::render::{render_secrets, secrets_to_nix};
verus! {

/// 1-based line number of the character at offset `i`: one more than the
/// number of line breaks before it.
pub open spec fn line_at(s: Seq<char>, i: int) -> int
    decreases i,
{
    if i <= 0 {
        1
    } else {
        line_at(s, i - 1) + if s[i - 1] == '\n' {
            1int
        } else {
            0int
        }
    }
}

/// Offset of the first character of the line that offset `i` lies on.
pub open spec fn line_start(s: Seq<char>, i: int) -> int
    decreases i,
{
    if i <= 0 {
        0
    } else if s[i - 1] == '\n' {
        i
    } else {
        line_start(s, i - 1)
    }
}

/// 1-based column of the character at offset `i`.
pub open spec fn col_at(s: Seq<char>, i: int) -> int {
    i - line_start(s, i) + 1
}

/// The first offset at or after `i` whose line and column match the
/// target, or the text's length when no offset matches.
pub open spec fn resolve_from(s: Seq<char>, i: int, line: int, col: int) -> int
    recommends
        0 <= i <= s.len(),
    decreases s.len() - i,
{
    if i < 0 || i >= s.len() {
        s.len() as int
    } else if line_at(s, i) == line && col_at(s, i) == col {
        i
    } else {
        resolve_from(s, i + 1, line, col)
    }
}

/// The character offset of the 1-based position `(line, col)`.
pub open spec fn resolve(s: Seq<char>, line: int, col: int) -> int {
    resolve_from(s, 0, line, col)
}

/// The resolved offset never leaves the text.
pub proof fn lemma_resolve_bounds(s: Seq<char>, i: int, line: int, col: int)
    requires
        0 <= i <= s.len(),
    ensures
        i <= resolve_from(s, i, line, col) <= s.len(),
    decreases s.len() - i,
{
    if i < s.len() && !(line_at(s, i) == line && col_at(s, i) == col) {
        lemma_resolve_bounds(s, i + 1, line, col);
    }
}

/// The number of consecutive space characters immediately before offset
/// `i`.
pub open spec fn indent_before(s: Seq<char>, i: int) -> nat
    decreases i,
{
    if i <= 0 {
        0
    } else if s[i - 1] == ' ' {
        1 + indent_before(s, i - 1)
    } else {
        0
    }
}

/// The indentation before an offset never reaches further back than the
/// text's start.
pub proof fn lemma_indent_bound(s: Seq<char>, i: int)
    requires
        0 <= i,
    ensures
        indent_before(s, i) <= i,
    decreases i,
{
    if i > 0 && s[i - 1] == ' ' {
        lemma_indent_bound(s, i - 1);
    }
}

/// A backward scan over spaces that stopped at `i` measured the indent.
pub proof fn lemma_indent_scan(s: Seq<char>, i: int, p: int)
    requires
        0 <= i <= p <= s.len(),
        forall|j: int| i <= j < p ==> s[j] == ' ',
        i == 0 || s[i - 1] != ' ',
    ensures
        indent_before(s, p) == p - i,
    decreases p - i,
{
    if p > i {
        lemma_indent_scan(s, i, p - 1);
    }
}

/// The character offset of the span's start position.
pub open spec fn span_start_off(s: Seq<char>, span: Span) -> int {
    resolve(s, span.start.line as int, span.start.column as int)
}

/// The character offset of the span's end position.
pub open spec fn span_end_off(s: Seq<char>, span: Span) -> int {
    resolve(s, span.end.line as int, span.end.column as int)
}

/// The patched document: the text before the span's start offset, the
/// rendered secrets block at the indentation found there, and the text
/// from the span's end offset on.
pub open spec fn patched_model(
    s: Seq<char>,
    span: Span,
    secrets: Seq<(Seq<char>, SecretModel)>,
) -> Seq<char> {
    let a = span_start_off(s, span);
    let b = span_end_off(s, span);
    s.subrange(0, a) + render_secrets(secrets, indent_before(s, a)) + s.subrange(b, s.len() as int)
}

/// Walk the text once and return the character offset of the 1-based
/// position `(line, col)`, or the text's length when the position does not
/// occur.
pub fn resolve_pos(src: &str, line: usize, col: usize) -> (r: usize)
    requires
        src@.len() < usize::MAX,
    ensures
        r as int == resolve(src@, line as int, col as int),
        r <= src@.len(),
{
    let n = src.unicode_len();
    let mut i: usize = 0;
    let mut cl: usize = 1;
    let mut cc: usize = 1;
    while i < n
        invariant
            i <= n,
            n == src@.len(),
            n < usize::MAX,
            cl <= i + 1,
            cc <= i + 1,
            cl as int == line_at(src@, i as int),
            cc as int == col_at(src@, i as int),
            resolve(src@, line as int, col as int) == resolve_from(
                src@,
                i as int,
                line as int,
                col as int,
            ),
        decreases n - i,
    {
        if cl == line && cc == col {
            return i;
        }
        let c = src.get_char(i);
        if c == '\n' {
            cl = cl + 1;
            cc = 1;
        } else {
            cc = cc + 1;
        }
        i += 1;
    }
    if cl == line && cc == col {
        return n;
    }
    n
}

/// Count the consecutive space characters immediately before offset `pos`.
pub fn count_indent(src: &str, pos: usize) -> (r: usize)
    requires
        pos <= src@.len(),
    ensures
        r as nat == indent_before(src@, pos as int),
{
    let mut i: usize = pos;
    while i > 0 && src.get_char(i - 1) == ' '
        invariant
            i <= pos,
            pos <= src@.len(),
            forall|j: int| i <= j < pos ==> src@[j] == ' ',
        decreases i,
    {
        i -= 1;
    }
    proof {
        lemma_indent_scan(src@, i as int, pos as int);
    }
    pos - i
}

/// Build the patched document text: resolve the span, infer the base
/// indentation, render the secrets mapping, and splice it between the
/// untouched prefix and suffix.
pub fn patched_text(src: &str, span: Span, secrets: &Vec<(String, Secret)>) -> (r: String)
    requires
        src@.len() * 3 <= usize::MAX,
    ensures
        r@ == patched_model(src@, span, secrets_view(secrets@)),
{
    let n = src.unicode_len();
    let a = resolve_pos(src, span.start.line, span.start.column);
    let b = resolve_pos(src, span.end.line, span.end.column);
    let ind = count_indent(src, a);
    proof {
        lemma_indent_bound(src@, a as int);
        assert(ind * 3 <= src@.len() * 3);
    }
    let block = secrets_to_nix(secrets, ind);
    let mut out = String::from_str(src.substring_char(0, a));
    out.append(block.as_str());
    out.append(src.substring_char(b, n));
    proof {
        assert(out@ =~= patched_model(src@, span, secrets_view(secrets@)));
    }
    out
}

// ---------------------------------------------------------------------------
// The sibling output path.

/// Offset of the first character of the path's last component.
pub open spec fn name_start(p: Seq<char>) -> int
    decreases p.len(),
{
    if p.len() == 0 {
        0
    } else if p.last() == '/' {
        p.len() as int
    } else {
        name_start(p.drop_last())
    }
}

/// Offset of the last `.` of the path, or `-1` when it has none.
pub open spec fn dot_pos(p: Seq<char>) -> int
    decreases p.len(),
{
    if p.len() == 0 {
        -1
    } else if p.last() == '.' {
        p.len() - 1
    } else {
        dot_pos(p.drop_last())
    }
}

/// Where the path's extension (if any) begins to be cut: the last `.` of
/// the final component unless it is the component's first character, else
/// the path's end.
pub open spec fn stem_end(p: Seq<char>) -> int {
    let d = dot_pos(p);
    if d > name_start(p) {
        d
    } else {
        p.len() as int
    }
}

/// The sibling output path: the extension replaced by `new.nix`, so the
/// source file is never overwritten.
pub open spec fn sibling_of(p: Seq<char>) -> Seq<char> {
    p.subrange(0, stem_end(p)) + ".new.nix"@
}

/// A backward scan that stopped at `i` found the last component's start.
proof fn lemma_name_start_scan(p: Seq<char>, i: int)
    requires
        0 <= i <= p.len(),
        forall|j: int| i <= j < p.len() ==> p[j] != '/',
        i == 0 || p[i - 1] == '/',
    ensures
        name_start(p) == i,
    decreases p.len(),
{
    if p.len() > 0 && p.last() != '/' {
        lemma_name_start_scan(p.drop_last(), i);
    }
}

/// A backward scan that stopped at `k` found the last dot.
proof fn lemma_dot_pos_scan(p: Seq<char>, k: int)
    requires
        0 <= k <= p.len(),
        forall|j: int| k <= j < p.len() ==> p[j] != '.',
        k == 0 || p[k - 1] == '.',
    ensures
        dot_pos(p) == k - 1,
    decreases p.len(),
{
    if p.len() > 0 && p.last() != '.' {
        lemma_dot_pos_scan(p.drop_last(), k);
    }
}

/// Dot and slash offsets never leave the path.
proof fn lemma_path_scan_bounds(p: Seq<char>)
    ensures
        0 <= name_start(p) <= p.len(),
        -1 <= dot_pos(p) < p.len(),
    decreases p.len(),
{
    if p.len() > 0 {
        lemma_path_scan_bounds(p.drop_last());
    }
}

/// The sibling output path of `path`: its extension replaced by `new.nix`.
pub fn sibling_path(path: &str) -> (r: String)
    ensures
        r@ == sibling_of(path@),
{
    let n = path.unicode_len();
    let mut i: usize = n;
    while i > 0 && path.get_char(i - 1) != '/'
        invariant
            i <= n,
            n == path@.len(),
            forall|j: int| i <= j < n ==> path@[j] != '/',
        decreases i,
    {
        i -= 1;
    }
    proof {
        lemma_name_start_scan(path@, i as int);
    }
    let mut k: usize = n;
    while k > 0 && path.get_char(k - 1) != '.'
        invariant
            k <= n,
            n == path@.len(),
            forall|j: int| k <= j < n ==> path@[j] != '.',
        decreases k,
    {
        k -= 1;
    }
    proof {
        lemma_dot_pos_scan(path@, k as int);
    }
    let se: usize = if k > 0 && k - 1 > i {
        k - 1
    } else {
        n
    };
    let mut r = String::from_str(path.substring_char(0, se));
    r.append(".new.nix");
    proof {
        assert(r@ =~= sibling_of(path@));
    }
    r
}

} // verus!
