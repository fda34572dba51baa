//! The typed data extracted from a configuration document, and its
//! mathematical model: association lists in first-insertion order with
//! unique keys are modelled as sequences of key/value pairs over `Seq<char>`.

use vstd::prelude::*;

verus! {

/// One secret: the hosts allowed to read it and the already-encrypted,
/// whitespace-trimmed payload.
#[derive(Clone, Debug)]
pub struct Secret {
    pub hosts: Vec<String>,
    pub enc: String,
}

/// One derivation: the names of its destructured formal arguments.
#[derive(Clone, Debug)]
pub struct Derivation {
    pub input: Vec<String>,
}

/// All typed data of a configuration document.
#[derive(Clone, Debug)]
pub struct ConfigFileData {
    pub admins: Vec<(String, String)>,
    pub hosts: Vec<(String, String)>,
    pub derivations: Vec<(String, Derivation)>,
    pub secrets: Vec<(String, Secret)>,
}

/// Model of a [`Secret`].
pub ghost struct SecretModel {
    pub hosts: Seq<Seq<char>>,
    pub enc: Seq<char>,
}

/// Model of a [`Derivation`].
pub ghost struct DerivationModel {
    pub input: Seq<Seq<char>>,
}

impl View for Secret {
    type V = SecretModel;

    open spec fn view(&self) -> SecretModel {
        SecretModel { hosts: self.hosts.deep_view(), enc: self.enc@ }
    }
}

impl View for Derivation {
    type V = DerivationModel;

    open spec fn view(&self) -> DerivationModel {
        DerivationModel { input: self.input.deep_view() }
    }
}

/// Model of an association list whose values are plain strings.
pub open spec fn strmap_view(m: Seq<(String, String)>) -> Seq<(Seq<char>, Seq<char>)> {
    m.map_values(|p: (String, String)| (p.0@, p.1@))
}

/// Model of the secrets association list.
pub open spec fn secrets_view(m: Seq<(String, Secret)>) -> Seq<(Seq<char>, SecretModel)> {
    m.map_values(|p: (String, Secret)| (p.0@, p.1@))
}

/// Model of the derivations association list.
pub open spec fn derivs_view(m: Seq<(String, Derivation)>) -> Seq<(Seq<char>, DerivationModel)> {
    m.map_values(|p: (String, Derivation)| (p.0@, p.1@))
}

/// Index of the first pair with key `k`, or `-1` when no pair has it.
pub open spec fn key_index<V>(m: Seq<(Seq<char>, V)>, k: Seq<char>) -> int
    decreases m.len(),
{
    if m.len() == 0 {
        -1
    } else if m[0].0 == k {
        0
    } else {
        let r = key_index(m.drop_first(), k);
        if r < 0 {
            -1
        } else {
            r + 1
        }
    }
}

/// `key_index` finds the first occurrence of `k`, and `-1` means absence.
pub proof fn lemma_key_index<V>(m: Seq<(Seq<char>, V)>, k: Seq<char>)
    ensures
        key_index(m, k) == -1 <==> (forall|j: int| 0 <= j < m.len() ==> m[j].0 != k),
        key_index(m, k) >= 0 ==> key_index(m, k) < m.len() && m[key_index(m, k)].0 == k
            && (forall|j: int| 0 <= j < key_index(m, k) ==> m[j].0 != k),
    decreases m.len(),
{
    if m.len() > 0 && m[0].0 != k {
        lemma_key_index(m.drop_first(), k);
        assert forall|j: int| 0 <= j < m.len() && key_index(m, k) == -1 implies m[j].0 != k by {
            if j > 0 {
                assert(m.drop_first()[j - 1] == m[j]);
            }
        }
        if key_index(m, k) >= 0 {
            assert(m[key_index(m, k)] == m.drop_first()[key_index(m, k) - 1]);
            assert forall|j: int| 0 <= j < key_index(m, k) implies m[j].0 != k by {
                if j > 0 {
                    assert(m.drop_first()[j - 1] == m[j]);
                }
            }
        }
    }
}

/// Pointwise description of [`strmap_view`].
pub proof fn lemma_strmap_view(m: Seq<(String, String)>)
    ensures
        strmap_view(m).len() == m.len(),
        forall|j: int| 0 <= j < m.len() ==> #[trigger] strmap_view(m)[j] == (m[j].0@, m[j].1@),
{
}

/// Pointwise description of [`secrets_view`].
pub proof fn lemma_secrets_view(m: Seq<(String, Secret)>)
    ensures
        secrets_view(m).len() == m.len(),
        forall|j: int| 0 <= j < m.len() ==> #[trigger] secrets_view(m)[j] == (m[j].0@, m[j].1@),
{
}

/// Pointwise description of `Vec::<String>::deep_view`.
pub proof fn lemma_str_vec_dv(v: Vec<String>)
    ensures
        v.deep_view().len() == v@.len(),
        forall|j: int| 0 <= j < v@.len() ==> #[trigger] v.deep_view()[j] == v@[j]@,
{
}

/// Pointwise description of [`derivs_view`].
pub proof fn lemma_derivs_view(m: Seq<(String, Derivation)>)
    ensures
        derivs_view(m).len() == m.len(),
        forall|j: int| 0 <= j < m.len() ==> #[trigger] derivs_view(m)[j] == (m[j].0@, m[j].1@),
{
}

/// A scan that stops at `i` with key `k` found the first occurrence.
pub proof fn lemma_strmap_key_at(m: Seq<(String, String)>, k: Seq<char>, i: int)
    requires
        0 <= i < m.len(),
        m[i].0@ == k,
        forall|j: int| 0 <= j < i ==> m[j].0@ != k,
    ensures
        key_index(strmap_view(m), k) == i,
{
    lemma_key_index(strmap_view(m), k);
    lemma_strmap_view(m);
    assert forall|j: int| 0 <= j < i implies strmap_view(m)[j].0 != k by {
        assert(strmap_view(m)[j] == (m[j].0@, m[j].1@));
    }
    assert(strmap_view(m)[i] == (m[i].0@, m[i].1@));
}

/// A scan that saw every key and never `k` proves absence.
pub proof fn lemma_strmap_key_absent(m: Seq<(String, String)>, k: Seq<char>)
    requires
        forall|j: int| 0 <= j < m.len() ==> m[j].0@ != k,
    ensures
        key_index(strmap_view(m), k) == -1,
{
    lemma_key_index(strmap_view(m), k);
    lemma_strmap_view(m);
    assert forall|j: int| 0 <= j < strmap_view(m).len() implies strmap_view(m)[j].0 != k by {
        assert(strmap_view(m)[j] == (m[j].0@, m[j].1@));
    }
}

/// A scan that stops at `i` with key `k` found the first occurrence.
pub proof fn lemma_secrets_key_at(m: Seq<(String, Secret)>, k: Seq<char>, i: int)
    requires
        0 <= i < m.len(),
        m[i].0@ == k,
        forall|j: int| 0 <= j < i ==> m[j].0@ != k,
    ensures
        key_index(secrets_view(m), k) == i,
{
    lemma_key_index(secrets_view(m), k);
    lemma_secrets_view(m);
    assert forall|j: int| 0 <= j < i implies secrets_view(m)[j].0 != k by {
        assert(secrets_view(m)[j] == (m[j].0@, m[j].1@));
    }
    assert(secrets_view(m)[i] == (m[i].0@, m[i].1@));
}

/// A scan that saw every key and never `k` proves absence.
pub proof fn lemma_secrets_key_absent(m: Seq<(String, Secret)>, k: Seq<char>)
    requires
        forall|j: int| 0 <= j < m.len() ==> m[j].0@ != k,
    ensures
        key_index(secrets_view(m), k) == -1,
{
    lemma_key_index(secrets_view(m), k);
    lemma_secrets_view(m);
    assert forall|j: int| 0 <= j < secrets_view(m).len() implies secrets_view(m)[j].0 != k by {
        assert(secrets_view(m)[j] == (m[j].0@, m[j].1@));
    }
}

/// A scan that stops at `i` with key `k` found the first occurrence.
pub proof fn lemma_derivs_key_at(m: Seq<(String, Derivation)>, k: Seq<char>, i: int)
    requires
        0 <= i < m.len(),
        m[i].0@ == k,
        forall|j: int| 0 <= j < i ==> m[j].0@ != k,
    ensures
        key_index(derivs_view(m), k) == i,
{
    lemma_key_index(derivs_view(m), k);
    lemma_derivs_view(m);
    assert forall|j: int| 0 <= j < i implies derivs_view(m)[j].0 != k by {
        assert(derivs_view(m)[j] == (m[j].0@, m[j].1@));
    }
    assert(derivs_view(m)[i] == (m[i].0@, m[i].1@));
}

/// A scan that saw every key and never `k` proves absence.
pub proof fn lemma_derivs_key_absent(m: Seq<(String, Derivation)>, k: Seq<char>)
    requires
        forall|j: int| 0 <= j < m.len() ==> m[j].0@ != k,
    ensures
        key_index(derivs_view(m), k) == -1,
{
    lemma_key_index(derivs_view(m), k);
    lemma_derivs_view(m);
    assert forall|j: int| 0 <= j < derivs_view(m).len() implies derivs_view(m)[j].0 != k by {
        assert(derivs_view(m)[j] == (m[j].0@, m[j].1@));
    }
}

} // verus!
