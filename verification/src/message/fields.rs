//! The values of a template's fields: a mapping from names to texts, kept
//! in the order of the names.

use crate::bytes::{compare, lemma_lex_total, lex_lt, Order};
use crate::sorted::{lemma_put_above, lemma_put_below, lemma_put_same};
use vstd::prelude::*;
use vstd::utf8::{encode_utf8, encode_utf8_decode_utf8};

verus! {

/// The order of names: that of their UTF-8 forms, byte by byte.
pub open spec fn key_lt(a: Seq<char>, b: Seq<char>) -> bool {
    lex_lt(encode_utf8(a), encode_utf8(b))
}

/// The bytes by which names are ordered: their UTF-8 form.
pub open spec fn utf8() -> spec_fn(Seq<char>) -> Seq<u8> {
    |a: Seq<char>| encode_utf8(a)
}

/// Whether the names of `s` strictly increase, so that none occurs twice.
pub open spec fn sorted(s: Seq<(Seq<char>, Seq<char>)>) -> bool {
    crate::sorted::sorted(s, utf8())
}

/// The entries `s` with `value` under `key`: in place of the entry of that
/// name, or else between the entries with lower and higher names.
pub open spec fn put(s: Seq<(Seq<char>, Seq<char>)>, key: Seq<char>, value: Seq<char>) -> Seq<
    (Seq<char>, Seq<char>),
> {
    crate::sorted::put(s, key, value, utf8())
}

/// The value that `s` holds under `name`, if any.
pub open spec fn lookup(s: Seq<(Seq<char>, Seq<char>)>, name: Seq<char>) -> Option<Seq<char>> {
    crate::sorted::lookup(s, name)
}

/// What comes of putting the entries of `s` one after the other, from the
/// first on, into an empty mapping.
pub open spec fn collect(s: Seq<(Seq<char>, Seq<char>)>) -> Seq<(Seq<char>, Seq<char>)> {
    crate::sorted::collect(s, utf8())
}

/// Two texts with the same UTF-8 form are the same text.
pub proof fn lemma_utf8_injective(a: Seq<char>, b: Seq<char>)
    requires
        encode_utf8(a) == encode_utf8(b),
    ensures
        a == b,
{
    encode_utf8_decode_utf8(a);
    encode_utf8_decode_utf8(b);
}

/// Entries whose names increase are what comes of putting them one by one.
pub proof fn lemma_collect_sorted(s: Seq<(Seq<char>, Seq<char>)>)
    requires
        sorted(s),
    ensures
        collect(s) == s,
{
    crate::sorted::lemma_collect_sorted(s, utf8());
}

/// A mapping from names to texts, in the order of the names.
#[derive(Debug)]
pub struct Fields {
    entries: Vec<(String, String)>,
}

/// The entries of a vector as pairs of texts.
pub open spec fn pairs_of(entries: Seq<(String, String)>) -> Seq<(Seq<char>, Seq<char>)> {
    entries.map_values(|e: (String, String)| (e.0@, e.1@))
}

impl View for Fields {
    type V = Seq<(Seq<char>, Seq<char>)>;

    closed spec fn view(&self) -> Seq<(Seq<char>, Seq<char>)> {
        pairs_of(self.entries@)
    }
}

impl Fields {
    /// The names strictly increase.
    pub open spec fn wf(&self) -> bool {
        sorted(self@)
    }

    /// The mapping without entries.
    pub fn new() -> (r: Fields)
        ensures
            r@ == Seq::<(Seq<char>, Seq<char>)>::empty(),
            r.wf(),
    {
        let r = Fields { entries: Vec::new() };
        assert(r@ =~= Seq::<(Seq<char>, Seq<char>)>::empty());
        r
    }

    /// The number of entries.
    pub fn len(&self) -> (n: usize)
        ensures
            n == self@.len(),
    {
        self.entries.len()
    }

    /// Whether there is no entry.
    pub fn is_empty(&self) -> (r: bool)
        ensures
            r == (self@.len() == 0),
    {
        self.entries.len() == 0
    }

    /// The name of the entry at `i`.
    pub fn key(&self, i: usize) -> (k: &String)
        requires
            i < self@.len(),
        ensures
            k@ == self@[i as int].0,
    {
        &self.entries[i].0
    }

    /// The value of the entry at `i`.
    pub fn value(&self, i: usize) -> (v: &String)
        requires
            i < self@.len(),
        ensures
            v@ == self@[i as int].1,
    {
        &self.entries[i].1
    }

    /// The value under `name`, if there is one.
    pub fn get(&self, name: &str) -> (r: Option<&String>)
        ensures
            r is Some <==> lookup(self@, name@) is Some,
            r matches Some(v) ==> Some(v@) == lookup(self@, name@),
    {
        let mut i: usize = self.entries.len();
        assert(self@.take(i as int) =~= self@);
        while i > 0
            invariant
                i <= self.entries.len(),
                lookup(self@, name@) == lookup(self@.take(i as int), name@),
            decreases i,
        {
            let ghost part = self@.take(i as int);
            i -= 1;
            assert(part.last() == self@[i as int]);
            assert(part.drop_last() =~= self@.take(i as int));
            match compare(self.entries[i].0.as_str().as_bytes(), name.as_bytes()) {
                Order::Equal => {
                    proof {
                        lemma_utf8_injective(self@[i as int].0, name@);
                    }
                    return Some(&self.entries[i].1);
                },
                _ => {},
            }
        }
        assert(self@.take(0) =~= Seq::<(Seq<char>, Seq<char>)>::empty());
        None
    }

    /// Puts `value` under `key`, in place of the value that was there, if
    /// any.
    pub fn insert(&mut self, key: String, value: String)
        ensures
            final(self)@ == put(old(self)@, key@, value@),
            old(self).wf() ==> final(self).wf(),
    {
        let ghost before = self@;
        let ghost k = key@;
        let ghost v = value@;
        let mut i: usize = self.entries.len();
        let mut below = false;
        assert(before.take(i as int) =~= before);
        assert(before.skip(i as int) =~= Seq::<(Seq<char>, Seq<char>)>::empty());
        assert(put(before, k, v) =~= put(before.take(i as int), k, v) + before.skip(i as int));
        while i > 0 && !below
            invariant
                i <= self.entries.len(),
                self@ == before,
                old(self)@ == before,
                before.len() == self.entries.len(),
                key@ == k,
                value@ == v,
                put(before, k, v) == put(before.take(i as int), k, v) + before.skip(i as int),
                forall|j: int| i <= j < before.len() ==> key_lt(k, #[trigger] before[j].0),
                below ==> i > 0 && key_lt(before[i - 1].0, k),
            decreases i - (if below { 1int } else { 0int }),
        {
            match compare(self.entries[i - 1].0.as_str().as_bytes(), key.as_str().as_bytes()) {
                Order::Equal => {
                    proof {
                        lemma_utf8_injective(before[i - 1].0, k);
                        lemma_put_same(before, i as int, k, v, utf8());
                    }
                    self.entries.set(i - 1, (key, value));
                    assert(self@ =~= before.update(i - 1, (k, v)));
                    return ;
                },
                Order::Less => {
                    below = true;
                },
                Order::Greater => {
                    proof {
                        lemma_lex_total(encode_utf8(before[i - 1].0), encode_utf8(k));
                        lemma_put_above(before, i as int, k, v, utf8());
                    }
                    i -= 1;
                },
            }
        }
        proof {
            lemma_put_below(before, i as int, k, v, utf8());
        }
        self.entries.insert(i, (key, value));
        assert(self@ =~= before.insert(i as int, (k, v)));
    }
}

} // verus!
