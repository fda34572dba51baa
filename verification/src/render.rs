//! The serializer: renders the secrets mapping back into attribute-set
//! syntax, `secrets = { ... }`, at a given base indentation width.
//!
//! For every secret `name`, in mapping order, two statements are emitted:
//! `name.hosts = [ "h1" "h2" ];` and `name.enc = ''...'';`. The body
//! statements are indented at twice the base width, the lines of the
//! payload at three times, and the closing brace at the base width.

use vstd::prelude::*;

use crate::data::{lemma_secrets_view, secrets_view, Secret, SecretModel};
use crate::text::{push_char, spaces, spaces_of};

verus! {

/// The quoted host names, each preceded by one space, appended to `acc`.
pub open spec fn quoted_items(hs: Seq<Seq<char>>, acc: Seq<char>) -> Seq<char>
    decreases hs.len(),
{
    if hs.len() == 0 {
        acc
    } else {
        quoted_items(hs.drop_first(), acc + seq![' ', '"'] + hs[0] + seq!['"'])
    }
}

/// A hosts list in list syntax: `[ "h1" "h2" ]`.
pub open spec fn hosts_list_text(hs: Seq<Seq<char>>) -> Seq<char> {
    quoted_items(hs, seq!['[']) + seq![' ', ']']
}

/// The payload with every line break re-prefixed by `tab`, appended to
/// `acc`.
pub open spec fn enc_body(s: Seq<char>, tab: Seq<char>, acc: Seq<char>) -> Seq<char>
    decreases s.len(),
{
    if s.len() == 0 {
        acc
    } else {
        let acc2 = if s[0] == '\n' {
            acc + seq!['\n'] + tab
        } else {
            acc.push(s[0])
        };
        enc_body(s.drop_first(), tab, acc2)
    }
}

/// The two statements of one secret.
pub open spec fn entry_text(
    name: Seq<char>,
    sec: SecretModel,
    tab2: Seq<char>,
    tab3: Seq<char>,
) -> Seq<char> {
    tab2 + name + ".hosts = "@ + hosts_list_text(sec.hosts) + ";\n"@ + tab2 + name + ".enc = ''\n"@
        + tab3 + enc_body(sec.enc, tab3, Seq::empty()) + "'';\n"@
}

/// All entries' statements, appended to `acc`.
pub open spec fn entries_text(
    secrets: Seq<(Seq<char>, SecretModel)>,
    tab2: Seq<char>,
    tab3: Seq<char>,
    acc: Seq<char>,
) -> Seq<char>
    decreases secrets.len(),
{
    if secrets.len() == 0 {
        acc
    } else {
        entries_text(
            secrets.drop_first(),
            tab2,
            tab3,
            acc + entry_text(secrets[0].0, secrets[0].1, tab2, tab3),
        )
    }
}

/// The whole rendered block at base indentation `ind`: body statements at
/// `2*ind` spaces, payload lines at `3*ind`, the closing brace at `ind`.
pub open spec fn render_secrets(secrets: Seq<(Seq<char>, SecretModel)>, ind: nat) -> Seq<char> {
    entries_text(secrets, spaces_of(2 * ind), spaces_of(3 * ind), "secrets = {\n"@)
        + spaces_of(ind) + seq!['}']
}

/// Render a hosts list: `[ "h1" "h2" ]`.
fn render_hosts(hosts: &Vec<String>) -> (r: String)
    ensures
        r@ == hosts_list_text(hosts.deep_view()),
{
    let ghost dv = hosts.deep_view();
    let mut r = String::new();
    push_char(&mut r, '[');
    proof {
        crate::data::lemma_str_vec_dv(*hosts);
        assert(r@ =~= seq!['[']);
        assert(dv.skip(0) =~= dv);
    }
    let mut i: usize = 0;
    while i < hosts.len()
        invariant
            i <= hosts.len(),
            dv == hosts.deep_view(),
            dv.len() == hosts@.len(),
            forall|j: int| 0 <= j < hosts@.len() ==> dv[j] == hosts@[j]@,
            quoted_items(dv.skip(i as int), r@) == quoted_items(dv, seq!['[']),
        decreases hosts.len() - i,
    {
        proof {
            assert(dv.skip(i as int).drop_first() =~= dv.skip(i as int + 1));
            assert(dv.skip(i as int)[0] == dv[i as int]);
        }
        let ghost r0 = r@;
        push_char(&mut r, ' ');
        push_char(&mut r, '"');
        r.append(hosts[i].as_str());
        push_char(&mut r, '"');
        proof {
            assert(r@ =~= r0 + seq![' ', '"'] + dv[i as int] + seq!['"']);
        }
        i += 1;
    }
    proof {
        assert(dv.skip(dv.len() as int) =~= Seq::<Seq<char>>::empty());
    }
    push_char(&mut r, ' ');
    push_char(&mut r, ']');
    proof {
        assert(r@ =~= quoted_items(dv, seq!['[']) + seq![' ', ']']);
    }
    r
}

/// Append the payload to `buf`, re-prefixing every line break with `tab`.
fn append_enc_body(buf: &mut String, enc: &str, tab: &String)
    ensures
        final(buf)@ == enc_body(enc@, tab@, old(buf)@),
{
    let ghost b0 = buf@;
    let n = enc.unicode_len();
    proof {
        assert(enc@.skip(0) =~= enc@);
    }
    let mut i: usize = 0;
    while i < n
        invariant
            i <= n,
            n == enc@.len(),
            enc_body(enc@.skip(i as int), tab@, buf@) == enc_body(enc@, tab@, b0),
        decreases n - i,
    {
        proof {
            assert(enc@.skip(i as int).drop_first() =~= enc@.skip(i as int + 1));
            assert(enc@.skip(i as int)[0] == enc@[i as int]);
        }
        let c = enc.get_char(i);
        let ghost r0 = buf@;
        if c == '\n' {
            push_char(buf, '\n');
            buf.append(tab.as_str());
            proof {
                assert(buf@ =~= r0 + seq!['\n'] + tab@);
            }
        } else {
            push_char(buf, c);
        }
        i += 1;
    }
    proof {
        assert(enc@.skip(n as int) =~= Seq::<char>::empty());
    }
}

/// Render the secrets mapping at base indentation `base_indent`, in
/// mapping order.
pub fn secrets_to_nix(secrets: &Vec<(String, Secret)>, base_indent: usize) -> (r: String)
    requires
        base_indent * 3 <= usize::MAX,
    ensures
        r@ == render_secrets(secrets_view(secrets@), base_indent as nat),
{
    let ghost sv = secrets_view(secrets@);
    let tab = spaces(base_indent);
    let tab2 = spaces(base_indent * 2);
    let tab3 = spaces(base_indent * 3);
    let mut buf = String::from_str("secrets = {\n");
    proof {
        lemma_secrets_view(secrets@);
        assert(sv.skip(0) =~= sv);
    }
    let mut i: usize = 0;
    while i < secrets.len()
        invariant
            i <= secrets.len(),
            sv == secrets_view(secrets@),
            sv.len() == secrets@.len(),
            forall|j: int| 0 <= j < secrets@.len()
                ==> sv[j] == (secrets@[j].0@, secrets@[j].1@),
            tab2@ == spaces_of(2 * base_indent as nat),
            tab3@ == spaces_of(3 * base_indent as nat),
            entries_text(sv.skip(i as int), tab2@, tab3@, buf@) == entries_text(
                sv,
                tab2@,
                tab3@,
                "secrets = {\n"@,
            ),
        decreases secrets.len() - i,
    {
        proof {
            assert(sv.skip(i as int).drop_first() =~= sv.skip(i as int + 1));
            assert(sv.skip(i as int)[0] == sv[i as int]);
        }
        let ghost b0 = buf@;
        let hosts_text = render_hosts(&secrets[i].1.hosts);
        buf.append(tab2.as_str());
        buf.append(secrets[i].0.as_str());
        buf.append(".hosts = ");
        buf.append(hosts_text.as_str());
        buf.append(";\n");
        buf.append(tab2.as_str());
        buf.append(secrets[i].0.as_str());
        buf.append(".enc = ''\n");
        buf.append(tab3.as_str());
        append_enc_body(&mut buf, secrets[i].1.enc.as_str(), &tab3);
        buf.append("'';\n");
        proof {
            let entry = sv[i as int];
            assert(enc_body(entry.1.enc, tab3@, b0 + tab2@ + entry.0 + ".hosts = "@
                + hosts_list_text(entry.1.hosts) + ";\n"@ + tab2@ + entry.0 + ".enc = ''\n"@
                + tab3@) =~= (b0 + tab2@ + entry.0 + ".hosts = "@
                + hosts_list_text(entry.1.hosts) + ";\n"@ + tab2@ + entry.0 + ".enc = ''\n"@
                + tab3@) + enc_body(entry.1.enc, tab3@, Seq::empty())) by {
                lemma_enc_body_acc(entry.1.enc, tab3@, b0 + tab2@ + entry.0 + ".hosts = "@
                    + hosts_list_text(entry.1.hosts) + ";\n"@ + tab2@ + entry.0
                    + ".enc = ''\n"@ + tab3@);
            }
            assert(buf@ =~= b0 + entry_text(entry.0, entry.1, tab2@, tab3@));
        }
        i += 1;
    }
    proof {
        assert(sv.skip(sv.len() as int) =~= Seq::<(Seq<char>, SecretModel)>::empty());
    }
    buf.append(tab.as_str());
    push_char(&mut buf, '}');
    proof {
        assert(buf@ =~= entries_text(sv, tab2@, tab3@, "secrets = {\n"@)
            + spaces_of(base_indent as nat) + seq!['}']);
    }
    buf
}

/// `enc_body` only ever appends: the accumulator passes through unchanged.
proof fn lemma_enc_body_acc(s: Seq<char>, tab: Seq<char>, acc: Seq<char>)
    ensures
        enc_body(s, tab, acc) =~= acc + enc_body(s, tab, Seq::empty()),
    decreases s.len(),
{
    if s.len() > 0 {
        if s[0] == '\n' {
            lemma_enc_body_acc(s.drop_first(), tab, acc + seq!['\n'] + tab);
            lemma_enc_body_acc(s.drop_first(), tab, Seq::empty() + seq!['\n'] + tab);
            lemma_enc_body_acc(s.drop_first(), tab, seq!['\n'] + tab);
            assert(Seq::<char>::empty() + seq!['\n'] + tab =~= seq!['\n'] + tab);
            assert(acc + seq!['\n'] + tab =~= acc + (seq!['\n'] + tab));
            assert(acc + (seq!['\n'] + tab + enc_body(s.drop_first(), tab, Seq::empty())) =~= acc
                + (seq!['\n'] + tab) + enc_body(s.drop_first(), tab, Seq::empty()));
        } else {
            lemma_enc_body_acc(s.drop_first(), tab, acc.push(s[0]));
            lemma_enc_body_acc(s.drop_first(), tab, Seq::empty().push(s[0]));
            assert(acc.push(s[0]) =~= acc + seq![s[0]]);
            assert(Seq::<char>::empty().push(s[0]) =~= seq![s[0]]);
            assert(acc + (seq![s[0]] + enc_body(s.drop_first(), tab, Seq::empty())) =~= acc
                + seq![s[0]] + enc_body(s.drop_first(), tab, Seq::empty()));
        }
    } else {
        assert(acc + Seq::<char>::empty() =~= acc);
    }
}

} // verus!
