//! Ordered maps keyed by strings, held as vectors of pairs sorted by key (the shape of a
//! `BTreeMap<String, V>`), and ordered string sets.

use vstd::prelude::*;
use crate::text::{lemma_seq_lt_asym, lemma_seq_lt_irrefl, lemma_seq_lt_total, lemma_seq_lt_trans, owned, seq_lt, str_eq, str_lt};

verus! {

/// Keys strictly increasing: sorted, each key once.
pub open spec fn assoc_sorted<V>(s: Seq<(Seq<char>, V)>) -> bool {
    forall|i: int, j: int| 0 <= i < j < s.len() ==> seq_lt(#[trigger] s[i].0, #[trigger] s[j].0)
}

/// The value under `key` (the first match).
pub open spec fn assoc_get<V>(s: Seq<(Seq<char>, V)>, key: Seq<char>) -> Option<V>
    decreases s.len(),
{
    if s.len() == 0 {
        None
    } else if s[0].0 == key {
        Some(s[0].1)
    } else {
        assoc_get(s.drop_first(), key)
    }
}

/// `s` with `key` set to `value`: replaced in place when present, otherwise inserted where
/// the key order puts it.
pub open spec fn assoc_insert<V>(s: Seq<(Seq<char>, V)>, key: Seq<char>, value: V) -> Seq<(Seq<char>, V)>
    decreases s.len(),
{
    if s.len() == 0 {
        seq![(key, value)]
    } else if s[0].0 == key {
        s.update(0, (key, value))
    } else if seq_lt(key, s[0].0) {
        seq![(key, value)] + s
    } else {
        seq![s[0]] + assoc_insert(s.drop_first(), key, value)
    }
}

pub open spec fn assoc_keys<V>(s: Seq<(Seq<char>, V)>) -> Seq<Seq<char>> {
    Seq::new(s.len(), |i: int| s[i].0)
}

pub open spec fn pairs_view<V: View>(v: Seq<(String, V)>) -> Seq<(Seq<char>, V::V)> {
    Seq::new(v.len(), |i: int| (v[i].0@, v[i].1@))
}

pub proof fn lemma_assoc_get_index<V>(s: Seq<(Seq<char>, V)>, key: Seq<char>)
    ensures
        assoc_get(s, key) is None <==> forall|i: int| 0 <= i < s.len() ==> s[i].0 != key,
        assoc_get(s, key) matches Some(v) ==> exists|i: int| 0 <= i < s.len() && s[i].0 == key && s[i].1 == v && forall|j: int| 0 <= j < i ==> s[j].0 != key,
    decreases s.len(),
{
    if s.len() > 0 {
        lemma_assoc_get_index(s.drop_first(), key);
        if s[0].0 != key {
            if assoc_get(s, key) is None {
                assert forall|i: int| 0 <= i < s.len() implies s[i].0 != key by {
                    if i > 0 {
                        assert(s.drop_first()[i - 1] == s[i]);
                    }
                }
            } else {
                let t = s.drop_first();
                let i = choose|i: int| 0 <= i < t.len() && t[i].0 == key && t[i].1 == assoc_get(s, key)->0 && forall|j: int| 0 <= j < i ==> t[j].0 != key;
                assert(s[i + 1] == t[i]);
                assert forall|j: int| 0 <= j < i + 1 implies s[j].0 != key by {
                    if j > 0 {
                        assert(s[j] == t[j - 1]);
                    }
                }
            }
        } else {
            assert(s[0].0 == key);
        }
    }
}

/// In a sorted map, the entry at `i` is what `assoc_get` finds for its key.
pub proof fn lemma_assoc_get_at<V>(s: Seq<(Seq<char>, V)>, i: int)
    requires
        assoc_sorted(s),
        0 <= i < s.len(),
    ensures
        assoc_get(s, s[i].0) == Some(s[i].1),
{
    lemma_assoc_get_index(s, s[i].0);
    if assoc_get(s, s[i].0) is None {
        assert(false);
    } else {
        let k = choose|k: int| 0 <= k < s.len() && s[k].0 == s[i].0 && s[k].1 == assoc_get(s, s[i].0)->0 && forall|j: int| 0 <= j < k ==> s[j].0 != s[i].0;
        if k < i {
            lemma_seq_lt_irrefl(s[i].0);
        } else if k > i {
            assert(s[i].0 != s[i].0);
        }
    }
}

pub proof fn lemma_assoc_insert_at<V>(s: Seq<(Seq<char>, V)>, key: Seq<char>, value: V, p: int)
    requires
        assoc_sorted(s),
        0 <= p <= s.len(),
        forall|i: int| 0 <= i < p ==> seq_lt(#[trigger] s[i].0, key),
        p < s.len() ==> !seq_lt(s[p].0, key),
    ensures
        p < s.len() && s[p].0 == key ==> assoc_insert(s, key, value) == s.update(p, (key, value)),
        !(p < s.len() && s[p].0 == key) ==> assoc_insert(s, key, value) == s.insert(p, (key, value)),
        assoc_sorted(assoc_insert(s, key, value)),
    decreases p,
{
    if p == 0 {
        if s.len() > 0 && s[0].0 != key {
            lemma_seq_lt_total(s[0].0, key);
            assert(seq![(key, value)] + s =~= s.insert(0, (key, value)));
            let r = s.insert(0, (key, value));
            assert forall|i: int, j: int| 0 <= i < j < r.len() implies seq_lt(#[trigger] r[i].0, #[trigger] r[j].0) by {
                if i == 0 && j > 1 {
                    lemma_seq_lt_trans(key, s[0].0, s[j - 1].0);
                }
            }
        } else if s.len() == 0 {
            assert(seq![(key, value)] =~= s.insert(0, (key, value)));
        } else {
            let r = s.update(0, (key, value));
            assert forall|i: int, j: int| 0 <= i < j < r.len() implies seq_lt(#[trigger] r[i].0, #[trigger] r[j].0) by {
                assert(r[i].0 == s[i].0);
            }
        }
    } else {
        let rest = s.drop_first();
        assert forall|i: int| 0 <= i < p - 1 implies seq_lt(#[trigger] rest[i].0, key) by {
            assert(rest[i] == s[i + 1]);
        }
        lemma_assoc_insert_at(rest, key, value, p - 1);
        assert(s[0].0 != key) by {
            lemma_seq_lt_irrefl(key);
        }
        assert(!seq_lt(key, s[0].0)) by {
            lemma_seq_lt_asym(s[0].0, key);
        }
        let ins = assoc_insert(rest, key, value);
        if p < s.len() && s[p].0 == key {
            assert(seq![s[0]] + rest.update(p - 1, (key, value)) =~= s.update(p, (key, value)));
        } else {
            assert(seq![s[0]] + rest.insert(p - 1, (key, value)) =~= s.insert(p, (key, value)));
        }
        let r = seq![s[0]] + ins;
        assert forall|i: int, j: int| 0 <= i < j < r.len() implies seq_lt(#[trigger] r[i].0, #[trigger] r[j].0) by {
            if i == 0 {
                assert(r[j] == ins[j - 1]);
                if p < s.len() && s[p].0 == key {
                    if j - 1 == p - 1 {
                    } else {
                        assert(ins[j - 1] == rest[j - 1]);
                    }
                } else {
                    if j - 1 < p - 1 {
                        assert(ins[j - 1] == rest[j - 1]);
                    } else if j - 1 == p - 1 {
                        assert(ins[j - 1].0 == key);
                    } else {
                        assert(ins[j - 1] == rest[j - 2]);
                    }
                }
            } else {
                assert(r[i] == ins[i - 1]);
                assert(r[j] == ins[j - 1]);
            }
        }
    }
}

/// Reading back a key that was just set gives the value set; other keys are unchanged.
pub proof fn lemma_assoc_get_insert<V>(s: Seq<(Seq<char>, V)>, key: Seq<char>, value: V, other: Seq<char>)
    ensures
        assoc_get(assoc_insert(s, key, value), other) == (if other == key { Some(value) } else { assoc_get(s, other) }),
    decreases s.len(),
{
    if s.len() > 0 {
        if s[0].0 == key {
            let r = s.update(0, (key, value));
            assert(assoc_insert(s, key, value) == r);
            assert(r[0] == (key, value));
            assert(r.drop_first() =~= s.drop_first());
            if other != key {
                assert(assoc_get(r, other) == assoc_get(r.drop_first(), other));
                assert(assoc_get(s, other) == assoc_get(s.drop_first(), other));
            }
        } else if seq_lt(key, s[0].0) {
            let r = seq![(key, value)] + s;
            assert(r.drop_first() =~= s);
        } else {
            lemma_assoc_get_insert(s.drop_first(), key, value, other);
            let r = seq![s[0]] + assoc_insert(s.drop_first(), key, value);
            assert(r.drop_first() =~= assoc_insert(s.drop_first(), key, value));
        }
    } else {
        let r = seq![(key, value)];
        assert(r.drop_first() =~= Seq::<(Seq<char>, V)>::empty());
        assert(assoc_get(r.drop_first(), other) is None);
    }
}

/// Setting the value at a position whose key stays: lookups of that key see the new value
/// unless an earlier entry holds the key; other keys are unchanged.
pub proof fn lemma_assoc_get_update<V>(s: Seq<(Seq<char>, V)>, p: int, v: V, other: Seq<char>)
    requires
        0 <= p < s.len(),
    ensures
        assoc_get(s.update(p, (s[p].0, v)), other) == (if other == s[p].0 && forall|q: int| 0 <= q < p ==> s[q].0 != other {
            Some(v)
        } else {
            assoc_get(s, other)
        }),
    decreases s.len(),
{
    let u = s.update(p, (s[p].0, v));
    if p == 0 {
        assert(u.drop_first() =~= s.drop_first());
    } else {
        assert(u[0] == s[0]);
        assert(u.drop_first() =~= s.drop_first().update(p - 1, (s[p].0, v)));
        assert(s.drop_first()[p - 1] == s[p]);
        lemma_assoc_get_update(s.drop_first(), p - 1, v, other);
        if s[0].0 != other {
            assert((forall|q: int| 0 <= q < p ==> s[q].0 != other) == (forall|q: int| 0 <= q < p - 1 ==> s.drop_first()[q].0 != other)) by {
                if forall|q: int| 0 <= q < p - 1 ==> s.drop_first()[q].0 != other {
                    assert forall|q: int| 0 <= q < p implies s[q].0 != other by {
                        if q > 0 {
                            assert(s[q] == s.drop_first()[q - 1]);
                        }
                    }
                }
                if forall|q: int| 0 <= q < p ==> s[q].0 != other {
                    assert forall|q: int| 0 <= q < p - 1 implies s.drop_first()[q].0 != other by {
                        assert(s[q + 1] == s.drop_first()[q]);
                    }
                }
            }
        }
    }
}

/// Appending an entry: lookups of its key see it when no earlier entry holds the key.
pub proof fn lemma_assoc_get_push<V>(s: Seq<(Seq<char>, V)>, k: Seq<char>, v: V, other: Seq<char>)
    ensures
        assoc_get(s.push((k, v)), other) == (if assoc_get(s, other) is None && other == k { Some(v) } else { assoc_get(s, other) }),
    decreases s.len(),
{
    let u = s.push((k, v));
    if s.len() == 0 {
        assert(u.drop_first() =~= Seq::<(Seq<char>, V)>::empty());
    } else {
        assert(u[0] == s[0]);
        assert(u.drop_first() =~= s.drop_first().push((k, v)));
        lemma_assoc_get_push(s.drop_first(), k, v, other);
    }
}

/// Sets `key` to `value` (`BTreeMap::insert`).
pub fn assoc_set<V: View>(v: &mut Vec<(String, V)>, key: &str, value: V)
    requires
        assoc_sorted(pairs_view(old(v)@)),
    ensures
        pairs_view(final(v)@) == assoc_insert(pairs_view(old(v)@), key@, value@),
        assoc_sorted(pairs_view(final(v)@)),
{
    let ghost s0 = pairs_view(v@);
    let ghost val = value@;
    let mut p: usize = 0;
    while p < v.len() && str_lt(v[p].0.as_str(), key)
        invariant
            p <= v.len(),
            s0 == pairs_view(v@),
            forall|i: int| 0 <= i < p ==> seq_lt(#[trigger] s0[i].0, key@),
        decreases v.len() - p,
    {
        p += 1;
    }
    proof {
        lemma_assoc_insert_at(s0, key@, val, p as int);
    }
    if p < v.len() && str_eq(v[p].0.as_str(), key) {
        v.set(p, (owned(key), value));
        proof {
            assert(pairs_view(v@) =~= s0.update(p as int, (key@, val)));
        }
    } else {
        v.insert(p, (owned(key), value));
        proof {
            assert(pairs_view(v@) =~= s0.insert(p as int, (key@, val)));
        }
    }
}

/// The value under `key` (`BTreeMap::get`).
pub fn assoc_find<'a, V: View>(v: &'a Vec<(String, V)>, key: &str) -> (r: Option<&'a V>)
    ensures
        match r {
            Some(x) => assoc_get(pairs_view(v@), key@) == Some(x@),
            None => assoc_get(pairs_view(v@), key@) is None,
        },
{
    let ghost s = pairs_view(v@);
    assert(s.subrange(0, s.len() as int) =~= s);
    let mut i: usize = 0;
    while i < v.len()
        invariant
            i <= v.len(),
            s == pairs_view(v@),
            assoc_get(s, key@) == assoc_get(s.subrange(i as int, s.len() as int), key@),
        decreases v.len() - i,
    {
        let ghost sub = s.subrange(i as int, s.len() as int);
        assert(sub[0] == s[i as int]);
        if str_eq(v[i].0.as_str(), key) {
            return Some(&v[i].1);
        }
        assert(sub.drop_first() =~= s.subrange(i + 1, s.len() as int));
        i += 1;
    }
    None
}

/// Whether `key` is present (`BTreeMap::contains_key`).
pub fn assoc_contains<V: View>(v: &Vec<(String, V)>, key: &str) -> (r: bool)
    ensures
        r == (assoc_get(pairs_view(v@), key@) is Some),
{
    match assoc_find(v, key) {
        Some(_) => true,
        None => false,
    }
}

/// Strictly increasing strings: a sorted set.
pub open spec fn set_sorted(s: Seq<Seq<char>>) -> bool {
    forall|i: int, j: int| 0 <= i < j < s.len() ==> seq_lt(#[trigger] s[i], #[trigger] s[j])
}

pub open spec fn strings_view(v: Seq<String>) -> Seq<Seq<char>> {
    Seq::new(v.len(), |i: int| v[i]@)
}

/// Adds `key` to a sorted set (`BTreeSet::insert`); the set is the old one plus the key.
pub fn set_add(v: &mut Vec<String>, key: &str)
    requires
        set_sorted(strings_view(old(v)@)),
    ensures
        set_sorted(strings_view(final(v)@)),
        strings_view(final(v)@).to_set() == strings_view(old(v)@).to_set().insert(key@),
{
    let ghost s0 = strings_view(v@);
    let mut p: usize = 0;
    while p < v.len() && str_lt(v[p].as_str(), key)
        invariant
            p <= v.len(),
            s0 == strings_view(v@),
            forall|i: int| 0 <= i < p ==> seq_lt(#[trigger] s0[i], key@),
        decreases v.len() - p,
    {
        p += 1;
    }
    if p < v.len() && str_eq(v[p].as_str(), key) {
        proof {
            assert(s0.to_set().insert(key@) =~= s0.to_set()) by {
                assert(s0.contains(key@)) by {
                    assert(s0[p as int] == key@);
                }
            }
        }
        return;
    }
    v.insert(p, owned(key));
    proof {
        let s1 = strings_view(v@);
        assert(s1 =~= s0.insert(p as int, key@));
        if p < s0.len() {
            lemma_seq_lt_total(s0[p as int], key@);
        }
        assert forall|i: int, j: int| 0 <= i < j < s1.len() implies seq_lt(#[trigger] s1[i], #[trigger] s1[j]) by {
            if j < p {
                assert(s1[j] == s0[j]);
                assert(s1[i] == s0[i]);
            } else if i < p && j == p {
            } else if i < p && j > p {
                assert(s1[j] == s0[j - 1]);
                assert(s1[i] == s0[i]);
            } else if i == p {
                assert(s1[j] == s0[j - 1]);
                if j - 1 > p {
                    lemma_seq_lt_trans(key@, s0[p as int], s0[j - 1]);
                }
            } else {
                assert(s1[j] == s0[j - 1]);
                assert(s1[i] == s0[i - 1]);
            }
        }
        assert forall|x: Seq<char>| s1.contains(x) <==> s0.contains(x) || x == key@ by {
            if s1.contains(x) {
                let k = choose|k: int| 0 <= k < s1.len() && s1[k] == x;
                if k < p {
                    assert(s0[k] == x);
                } else if k > p {
                    assert(s0[k - 1] == x);
                }
            }
            if s0.contains(x) {
                let k = choose|k: int| 0 <= k < s0.len() && s0[k] == x;
                if k < p {
                    assert(s1[k] == x);
                } else {
                    assert(s1[k + 1] == x);
                }
            }
            if x == key@ {
                assert(s1[p as int] == x);
            }
        }
        assert(s1.to_set() =~= s0.to_set().insert(key@));
    }
}

/// Whether a string is in a vector of strings.
pub fn strings_contain(v: &Vec<String>, key: &str) -> (r: bool)
    ensures
        r == strings_view(v@).contains(key@),
{
    let mut i: usize = 0;
    while i < v.len()
        invariant
            i <= v.len(),
            forall|k: int| 0 <= k < i ==> strings_view(v@)[k] != key@,
        decreases v.len() - i,
    {
        if str_eq(v[i].as_str(), key) {
            assert(strings_view(v@)[i as int] == key@);
            return true;
        }
        i += 1;
    }
    false
}

} // verus!
