//! Entries in the order of their keys: what the mappings of this library
//! have in common. The order of the keys is that of their bytes, which the
//! function `rank` gives.

use crate::bytes::{lemma_lex_irreflexive, lemma_lex_transitive, lex_lt};
use vstd::prelude::*;

verus! {

/// Whether the keys of `s` strictly increase, so that none occurs twice.
pub open spec fn sorted<K, V>(s: Seq<(K, V)>, rank: spec_fn(K) -> Seq<u8>) -> bool {
    forall|i: int, j: int|
        0 <= i < j < s.len() ==> lex_lt(rank(#[trigger] s[i].0), rank(#[trigger] s[j].0))
}

/// The entries `s` with `value` under `key`: in place of the last entry of
/// that key, or else behind the last entry with a lower key.
pub open spec fn put<K, V>(s: Seq<(K, V)>, key: K, value: V, rank: spec_fn(K) -> Seq<u8>) -> Seq<
    (K, V),
>
    decreases s.len(),
{
    if s.len() == 0 {
        seq![(key, value)]
    } else if s.last().0 == key {
        s.drop_last().push((key, value))
    } else if lex_lt(rank(s.last().0), rank(key)) {
        s.push((key, value))
    } else {
        put(s.drop_last(), key, value, rank).push(s.last())
    }
}

/// The value that `s` holds under `key`, if any.
pub open spec fn lookup<K, V>(s: Seq<(K, V)>, key: K) -> Option<V>
    decreases s.len(),
{
    if s.len() == 0 {
        None
    } else if s.last().0 == key {
        Some(s.last().1)
    } else {
        lookup(s.drop_last(), key)
    }
}

/// What comes of putting the entries of `s` one after the other, from the
/// first on, into an empty mapping.
pub open spec fn collect<K, V>(s: Seq<(K, V)>, rank: spec_fn(K) -> Seq<u8>) -> Seq<(K, V)>
    decreases s.len(),
{
    if s.len() == 0 {
        Seq::empty()
    } else {
        put(collect(s.drop_last(), rank), s.last().0, s.last().1, rank)
    }
}

/// Entries whose keys increase are what comes of putting them one by one.
pub proof fn lemma_collect_sorted<K, V>(s: Seq<(K, V)>, rank: spec_fn(K) -> Seq<u8>)
    requires
        sorted(s, rank),
    ensures
        collect(s, rank) == s,
    decreases s.len(),
{
    if s.len() > 0 {
        let front = s.drop_last();
        lemma_collect_sorted(front, rank);
        if front.len() > 0 {
            assert(lex_lt(rank(s[front.len() - 1].0), rank(s[s.len() - 1].0)));
            assert(front.last().0 != s.last().0) by {
                lemma_lex_irreflexive(rank(s.last().0));
            }
        }
        assert(front.push(s.last()) =~= s);
    }
}

/// Putting under a key that is below the entry before `i` leaves that
/// entry where it is.
pub proof fn lemma_put_above<K, V>(
    s: Seq<(K, V)>,
    i: int,
    k: K,
    v: V,
    rank: spec_fn(K) -> Seq<u8>,
)
    requires
        0 < i <= s.len(),
        s[i - 1].0 != k,
        !lex_lt(rank(s[i - 1].0), rank(k)),
    ensures
        put(s.take(i), k, v, rank) + s.skip(i) == put(s.take(i - 1), k, v, rank) + s.skip(i - 1),
{
    let part = s.take(i);
    assert(part.last() == s[i - 1]);
    assert(part.drop_last() =~= s.take(i - 1));
    assert(put(part, k, v, rank) == put(s.take(i - 1), k, v, rank).push(s[i - 1]));
    assert(put(part, k, v, rank) + s.skip(i) =~= put(s.take(i - 1), k, v, rank) + s.skip(
        i - 1,
    ));
}

/// Putting under the key of the entry before `i` replaces that entry.
pub proof fn lemma_put_same<K, V>(s: Seq<(K, V)>, i: int, k: K, v: V, rank: spec_fn(K) -> Seq<u8>)
    requires
        0 < i <= s.len(),
        s[i - 1].0 == k,
    ensures
        put(s.take(i), k, v, rank) + s.skip(i) == s.update(i - 1, (k, v)),
        sorted(s, rank) ==> sorted(s.update(i - 1, (k, v)), rank),
{
    let part = s.take(i);
    let r = s.update(i - 1, (k, v));
    assert(part.last() == s[i - 1]);
    assert(part.drop_last() =~= s.take(i - 1));
    assert(put(part, k, v, rank) == s.take(i - 1).push((k, v)));
    assert(put(part, k, v, rank) + s.skip(i) =~= r);
    if sorted(s, rank) {
        assert forall|a: int, b: int| 0 <= a < b < r.len() implies lex_lt(
            rank(#[trigger] r[a].0),
            rank(#[trigger] r[b].0),
        ) by {
            assert(lex_lt(rank(s[a].0), rank(s[b].0)));
        }
    }
}

/// Putting under a key that lies between the entries around `i` adds an
/// entry at `i`.
pub proof fn lemma_put_below<K, V>(
    s: Seq<(K, V)>,
    i: int,
    k: K,
    v: V,
    rank: spec_fn(K) -> Seq<u8>,
)
    requires
        0 <= i <= s.len(),
        i > 0 ==> lex_lt(rank(s[i - 1].0), rank(k)),
        forall|j: int| i <= j < s.len() ==> lex_lt(rank(k), rank(#[trigger] s[j].0)),
    ensures
        put(s.take(i), k, v, rank) + s.skip(i) == s.insert(i, (k, v)),
        sorted(s, rank) ==> sorted(s.insert(i, (k, v)), rank),
{
    let part = s.take(i);
    let r = s.insert(i, (k, v));
    if i > 0 {
        assert(part.last() == s[i - 1]);
        assert(s[i - 1].0 != k) by {
            lemma_lex_irreflexive(rank(k));
        }
        assert(put(part, k, v, rank) == part.push((k, v)));
    } else {
        assert(part =~= Seq::<(K, V)>::empty());
        assert(put(part, k, v, rank) =~= part.push((k, v)));
    }
    assert(put(part, k, v, rank) + s.skip(i) =~= r);
    if sorted(s, rank) {
        assert forall|a: int, b: int| 0 <= a < b < r.len() implies lex_lt(
            rank(#[trigger] r[a].0),
            rank(#[trigger] r[b].0),
        ) by {
            if b < i {
                assert(lex_lt(rank(s[a].0), rank(s[b].0)));
            } else if b == i {
                if a < i - 1 {
                    assert(lex_lt(rank(s[a].0), rank(s[i - 1].0)));
                    lemma_lex_transitive(rank(s[a].0), rank(s[i - 1].0), rank(k));
                }
            } else if a == i {
                assert(lex_lt(rank(k), rank(s[b - 1].0)));
            } else if a < i {
                assert(lex_lt(rank(s[a].0), rank(s[b - 1].0)));
            } else {
                assert(lex_lt(rank(s[a - 1].0), rank(s[b - 1].0)));
            }
        }
    }
}

} // verus!
