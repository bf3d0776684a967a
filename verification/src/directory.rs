//! The language directory: an immutable mapping from display name to
//! language code, built once at startup and read-only afterwards.
//!
//! Resolution is pass-through: a token that is not a key of the directory is
//! returned unchanged, on the assumption that the caller already supplied a
//! valid code. That is a policy, not an error.

use vstd::prelude::*;
use crate::text::str_eq;

verus! {

/// An association sequence from display name to language code.
pub type PairSeq = Seq<(Seq<char>, Seq<char>)>;

/// The views of a sequence of owned string pairs.
pub open spec fn pairs_view(s: Seq<(String, String)>) -> PairSeq {
    s.map_values(|p: (String, String)| (p.0@, p.1@))
}

/// The code mapped to `key`, looked up front to back.
pub open spec fn spec_lookup(m: PairSeq, key: Seq<char>) -> Option<Seq<char>>
    decreases m.len(),
{
    if m.len() == 0 {
        None
    } else if m[0].0 == key {
        Some(m[0].1)
    } else {
        spec_lookup(m.drop_first(), key)
    }
}

/// Whether `key` is present in `m`.
pub open spec fn has_key(m: PairSeq, key: Seq<char>) -> bool {
    spec_lookup(m, key) is Some
}

/// The resolution policy: a known display name maps to its code,
/// anything else passes through unchanged.
pub open spec fn spec_resolve(m: PairSeq, token: Seq<char>) -> Seq<char> {
    match spec_lookup(m, token) {
        Some(code) => code,
        None => token,
    }
}

/// Index of the first entry of `m` whose key is `key`, or `m.len()`.
pub open spec fn key_index(m: PairSeq, key: Seq<char>) -> int
    decreases m.len(),
{
    if m.len() == 0 {
        0
    } else if m[0].0 == key {
        0
    } else {
        1 + key_index(m.drop_first(), key)
    }
}

/// The keys of `m`, in order.
pub open spec fn key_seq(m: PairSeq) -> Seq<Seq<char>> {
    m.map_values(|p: (Seq<char>, Seq<char>)| p.0)
}

/// No two entries of `m` share a key.
pub open spec fn unique_keys(m: PairSeq) -> bool {
    forall|i: int, j: int| 0 <= i < j < m.len() ==> m[i].0 != m[j].0
}

/// One step of directory construction: a pair with a fresh key is appended,
/// a pair with a known key replaces the entry holding that key.
pub open spec fn insert_pair(m: PairSeq, p: (Seq<char>, Seq<char>)) -> PairSeq {
    if has_key(m, p.0) {
        m.update(key_index(m, p.0), p)
    } else {
        m.push(p)
    }
}

/// The directory built from `input`, inserted front to back, so that on a
/// repeated display name the later code wins.
pub open spec fn collect_pairs(input: PairSeq) -> PairSeq
    decreases input.len(),
{
    if input.len() == 0 {
        Seq::empty()
    } else {
        insert_pair(collect_pairs(input.drop_last()), input.last())
    }
}

pub proof fn lemma_lookup_exists(m: PairSeq, key: Seq<char>)
    ensures
        has_key(m, key) <==> exists|i: int| 0 <= i < m.len() && m[i].0 == key,
        has_key(m, key) ==> {
            let k = key_index(m, key);
            &&& 0 <= k < m.len()
            &&& m[k].0 == key
            &&& spec_lookup(m, key) == Some(m[k].1)
            &&& forall|j: int| 0 <= j < k ==> m[j].0 != key
        },
        !has_key(m, key) ==> key_index(m, key) == m.len(),
    decreases m.len(),
{
    if m.len() == 0 {
    } else if m[0].0 == key {
    } else {
        lemma_lookup_exists(m.drop_first(), key);
        assert forall|i: int| 0 <= i < m.len() && m[i].0 == key implies has_key(m, key) by {
            assert(m.drop_first()[i - 1] == m[i]);
        }
        if has_key(m, key) {
            let k = key_index(m.drop_first(), key);
            assert(m.drop_first()[k] == m[k + 1]);
            assert forall|j: int| 0 <= j < k + 1 implies m[j].0 != key by {
                if j > 0 {
                    assert(m.drop_first()[j - 1] == m[j]);
                }
            }
        }
    }
}

pub proof fn lemma_insert_pair_unique(m: PairSeq, p: (Seq<char>, Seq<char>))
    requires
        unique_keys(m),
    ensures
        unique_keys(insert_pair(m, p)),
{
    lemma_lookup_exists(m, p.0);
    if has_key(m, p.0) {
        let k = key_index(m, p.0);
        let m2 = m.update(k, p);
        assert forall|i: int, j: int| 0 <= i < j < m2.len() implies m2[i].0 != m2[j].0 by {
            if i != k && j != k {
                assert(m2[i] == m[i] && m2[j] == m[j]);
            } else if i == k {
                assert(m2[j] == m[j] && m[j].0 != m[k].0);
            } else {
                assert(m2[i] == m[i] && m[i].0 != m[k].0);
            }
        }
    } else {
        let m2 = m.push(p);
        assert forall|i: int, j: int| 0 <= i < j < m2.len() implies m2[i].0 != m2[j].0 by {
            if j < m.len() {
                assert(m2[i] == m[i] && m2[j] == m[j]);
            } else {
                assert(m2[j] == p && m2[i] == m[i]);
            }
        }
    }
}

/// The code of the last pair of `input` whose key is `key`, if any.
pub open spec fn last_lookup(input: PairSeq, key: Seq<char>) -> Option<Seq<char>>
    decreases input.len(),
{
    if input.len() == 0 {
        None
    } else if input.last().0 == key {
        Some(input.last().1)
    } else {
        last_lookup(input.drop_last(), key)
    }
}

proof fn lemma_lookup_update(m: PairSeq, k: int, p: (Seq<char>, Seq<char>), key: Seq<char>)
    requires
        0 <= k < m.len(),
        m[k].0 == p.0,
        forall|j: int| 0 <= j < k ==> m[j].0 != p.0,
    ensures
        spec_lookup(m.update(k, p), key) == if p.0 == key {
            Some(p.1)
        } else {
            spec_lookup(m, key)
        },
    decreases m.len(),
{
    let m2 = m.update(k, p);
    if k == 0 {
        assert(m2[0] == p);
        assert(m2.drop_first() =~= m.drop_first());
    } else {
        assert(m2[0] == m[0]);
        assert(m[0].0 != p.0);
        if m[0].0 != key {
            assert(m2.drop_first() =~= m.drop_first().update(k - 1, p));
            assert forall|j: int| 0 <= j < k - 1 implies m.drop_first()[j].0 != p.0 by {
                assert(m.drop_first()[j] == m[j + 1]);
            }
            assert(m.drop_first()[k - 1] == m[k]);
            lemma_lookup_update(m.drop_first(), k - 1, p, key);
        }
    }
}

proof fn lemma_lookup_push(m: PairSeq, p: (Seq<char>, Seq<char>), key: Seq<char>)
    requires
        !has_key(m, p.0),
    ensures
        spec_lookup(m.push(p), key) == if p.0 == key {
            Some(p.1)
        } else {
            spec_lookup(m, key)
        },
    decreases m.len(),
{
    let m2 = m.push(p);
    if m.len() == 0 {
        reveal_with_fuel(spec_lookup, 2);
        assert(m2[0] == p);
        assert(m2.drop_first() =~= Seq::<(Seq<char>, Seq<char>)>::empty());
    } else {
        assert(m2[0] == m[0]);
        if m[0].0 != key {
            assert(m2.drop_first() =~= m.drop_first().push(p));
            lemma_lookup_push(m.drop_first(), p, key);
        }
    }
}

/// Law: in the built directory every key maps to the code of the *last*
/// input pair holding that key, and a key is present exactly when some input
/// pair holds it.
pub proof fn lemma_collect_last_wins(input: PairSeq, key: Seq<char>)
    ensures
        spec_lookup(collect_pairs(input), key) == last_lookup(input, key),
    decreases input.len(),
{
    if input.len() > 0 {
        lemma_collect_last_wins(input.drop_last(), key);
        let m = collect_pairs(input.drop_last());
        let p = input.last();
        lemma_lookup_exists(m, p.0);
        if has_key(m, p.0) {
            lemma_lookup_update(m, key_index(m, p.0), p, key);
        } else {
            lemma_lookup_push(m, p, key);
        }
    }
}

/// The immutable display-name-to-code directory.
#[derive(Debug)]
pub struct LanguageDirectory {
    pairs: Vec<(String, String)>,
}

impl View for LanguageDirectory {
    type V = PairSeq;

    closed spec fn view(&self) -> PairSeq {
        pairs_view(self.pairs@)
    }
}

impl LanguageDirectory {
    /// Every key of the directory occurs once.
    pub open spec fn wf(&self) -> bool {
        unique_keys(self@)
    }

    /// Builds the directory from the (name, code) pairs the backend listed.
    /// On a repeated display name the later code wins.
    pub fn new(input: Vec<(String, String)>) -> (d: LanguageDirectory)
        ensures
            d@ == collect_pairs(pairs_view(input@)),
            d.wf(),
    {
        let ghost inp = pairs_view(input@);
        let mut pairs: Vec<(String, String)> = Vec::new();
        let mut i: usize = 0;
        while i < input.len()
            invariant
                i <= input.len(),
                inp == pairs_view(input@),
                inp.len() == input@.len(),
                pairs_view(pairs@) == collect_pairs(inp.take(i as int)),
                unique_keys(pairs_view(pairs@)),
            decreases input.len() - i,
        {
            let ghost before = pairs_view(pairs@);
            let key = input[i].0.clone();
            let value = input[i].1.clone();
            let k = Self::find_key(&pairs, key.as_str());
            proof {
                lemma_lookup_exists(before, key@);
                lemma_insert_pair_unique(before, (key@, value@));
                assert(inp.take(i + 1).drop_last() =~= inp.take(i as int));
                assert(inp.take(i + 1).last() == (key@, value@));
            }
            if k < pairs.len() {
                pairs[k] = (key, value);
            } else {
                pairs.push((key, value));
            }
            proof {
                assert(pairs_view(pairs@) =~= insert_pair(before, (key@, value@)));
            }
            i += 1;
        }
        proof {
            assert(inp.take(inp.len() as int) =~= inp);
        }
        LanguageDirectory { pairs }
    }

    /// Index of the first pair whose key is `key`, or `pairs.len()`.
    fn find_key(pairs: &Vec<(String, String)>, key: &str) -> (k: usize)
        ensures
            k == key_index(pairs_view(pairs@), key@),
            k <= pairs.len(),
            k < pairs.len() <==> has_key(pairs_view(pairs@), key@),
    {
        let ghost m = pairs_view(pairs@);
        proof {
            lemma_lookup_exists(m, key@);
        }
        let mut i: usize = 0;
        while i < pairs.len()
            invariant
                i <= pairs.len(),
                m == pairs_view(pairs@),
                m.len() == pairs@.len(),
                forall|j: int| 0 <= j < i ==> m[j].0 != key@,
            decreases pairs.len() - i,
        {
            if str_eq(pairs[i].0.as_str(), key) {
                proof {
                    lemma_key_index_at(m, key@, i as int);
                }
                return i;
            }
            i += 1;
        }
        proof {
            lemma_key_index_at(m, key@, m.len() as int);
        }
        pairs.len()
    }

    /// Resolves a user-supplied token: a known display name yields its code,
    /// an unknown token passes through unchanged.
    pub fn resolve(&self, token: &str) -> (code: String)
        ensures
            code@ == spec_resolve(self@, token@),
    {
        let ghost m = self@;
        proof {
            lemma_lookup_exists(m, token@);
        }
        let k = Self::find_key(&self.pairs, token);
        if k < self.pairs.len() {
            self.pairs[k].1.clone()
        } else {
            token.to_owned()
        }
    }

    /// The display names the directory knows, in directory order.
    pub fn names(&self) -> (r: Vec<String>)
        ensures
            r@.map_values(|s: String| s@) == key_seq(self@),
    {
        let mut r: Vec<String> = Vec::new();
        let mut i: usize = 0;
        while i < self.pairs.len()
            invariant
                i <= self.pairs.len(),
                r@.len() == i,
                forall|j: int| 0 <= j < i ==> r@[j]@ == self@[j].0,
            decreases self.pairs.len() - i,
        {
            r.push(self.pairs[i].0.clone());
            i += 1;
        }
        proof {
            assert(r@.map_values(|s: String| s@) =~= key_seq(self@));
        }
        r
    }

    /// How many languages the directory holds.
    pub fn len(&self) -> (n: usize)
        ensures
            n == self@.len(),
    {
        self.pairs.len()
    }
}

/// If the first `i` keys of `m` differ from `key` and (unless `i` is the
/// length) the key at `i` is `key`, then `i` is the first index of `key`.
pub proof fn lemma_key_index_at(m: PairSeq, key: Seq<char>, i: int)
    requires
        0 <= i <= m.len(),
        forall|j: int| 0 <= j < i ==> m[j].0 != key,
        i < m.len() ==> m[i].0 == key,
    ensures
        key_index(m, key) == i,
        has_key(m, key) <==> i < m.len(),
    decreases i,
{
    lemma_lookup_exists(m, key);
    if m.len() == 0 {
    } else if i == 0 {
    } else {
        assert(m[0].0 != key);
        assert forall|j: int| 0 <= j < i - 1 implies m.drop_first()[j].0 != key by {
            assert(m.drop_first()[j] == m[j + 1]);
        }
        if i - 1 < m.drop_first().len() {
            assert(m.drop_first()[i - 1] == m[i]);
        }
        lemma_key_index_at(m.drop_first(), key, i - 1);
    }
}

/// Law: a display name present in the directory resolves to its mapped code;
/// a token absent from the directory resolves to itself.
pub proof fn lemma_resolve_policy(m: PairSeq, token: Seq<char>)
    ensures
        has_key(m, token) ==> spec_resolve(m, token) == spec_lookup(m, token)->Some_0,
        !has_key(m, token) ==> spec_resolve(m, token) == token,
{
}

} // verus!
