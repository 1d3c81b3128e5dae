//! The stage of writes in front of a Merkle key-value store.

use crate::bytes::{compare, lemma_lex_total, lex_lt, Order};
use crate::optional::opt_view;
use crate::sorted::{lemma_put_above, lemma_put_below, lemma_put_same, lookup, put, sorted};
use crate::storage::{Bound, BoundView, Direction, IterOptions};
use vstd::prelude::*;
use vstd::slice::slice_to_vec;

verus! {

/// The index of the last byte of `v` that is not 0xFF; -1 where `v` has
/// none.
pub open spec fn last_below_max(v: Seq<u8>) -> int
    decreases v.len(),
{
    if v.len() == 0 {
        -1
    } else if v.last() != 0xFF {
        v.len() - 1
    } else {
        last_below_max(v.drop_last())
    }
}

/// The key `v` with one added to its last byte that is not 0xFF; where it
/// has none, a one and as many zeros as `v` has bytes.
pub open spec fn incr_spec(v: Seq<u8>) -> Seq<u8> {
    let i = last_below_max(v);
    if i >= 0 {
        v.update(i, (v[i] + 1) as u8)
    } else {
        seq![1u8] + Seq::new(v.len(), |j: int| 0u8)
    }
}

proof fn lemma_last_below_max(v: Seq<u8>)
    ensures
        -1 <= last_below_max(v) < v.len(),
        last_below_max(v) >= 0 ==> v[last_below_max(v)] != 0xFF,
        forall|j: int| last_below_max(v) < j < v.len() ==> v[j] == 0xFF,
    decreases v.len(),
{
    if v.len() > 0 && v.last() == 0xFF {
        lemma_last_below_max(v.drop_last());
        assert forall|j: int| last_below_max(v) < j < v.len() implies v[j] == 0xFF by {
            if j < v.len() - 1 {
                assert(v.drop_last()[j] == v[j]);
            }
        }
    }
}

/// A key with a byte below 0xFF is below the key that `incr` makes of it.
pub proof fn lemma_incr_is_above(v: Seq<u8>)
    requires
        last_below_max(v) >= 0,
    ensures
        lex_lt(v, incr_spec(v)),
        incr_spec(v).len() == v.len(),
{
    lemma_last_below_max(v);
    lemma_first_difference(v, incr_spec(v), 0, last_below_max(v));
}

proof fn lemma_first_difference(a: Seq<u8>, b: Seq<u8>, from: int, i: int)
    requires
        0 <= from <= i < a.len(),
        i < b.len(),
        forall|j: int| from <= j < i ==> a[j] == b[j],
        a[i] < b[i],
    ensures
        crate::bytes::lex_lt_from(a, b, from),
    decreases i - from,
{
    if from < i {
        lemma_first_difference(a, b, from + 1, i);
    }
}

/// Adds one to the last byte of `v` that is not 0xFF; where there is none,
/// gives a one and as many zeros as `v` has bytes.
pub fn incr(v: Vec<u8>) -> (r: Vec<u8>)
    ensures
        r@ == incr_spec(v@),
{
    let mut w = v;
    let ghost before = w@;
    let mut x: usize = w.len();
    assert(before.take(x as int) =~= before);
    while x > 0
        invariant
            x <= w.len(),
            w@ == before,
            v@ == before,
            last_below_max(before) == last_below_max(before.take(x as int)),
        decreases x,
    {
        let ghost part = before.take(x as int);
        x -= 1;
        assert(part.last() == before[x as int]);
        assert(part.drop_last() =~= before.take(x as int));
        if w[x] != 0xFF {
            let b = w[x];
            w.set(x, b + 1);
            return w;
        }
    }
    assert(before.take(0) =~= Seq::<u8>::empty());
    let n = w.len();
    let mut tmp: Vec<u8> = Vec::new();
    tmp.push(1);
    let mut i: usize = 0;
    while i < n
        invariant
            i <= n,
            tmp@ == seq![1u8] + Seq::new(i as nat, |j: int| 0u8),
        decreases n - i,
    {
        tmp.push(0);
        assert(tmp@ =~= seq![1u8] + Seq::new((i + 1) as nat, |j: int| 0u8));
        i += 1;
    }
    tmp
}

/// The lower bound of an iteration that starts at `start`.
pub open spec fn lower_bound_of(start: BoundView) -> Option<Seq<u8>> {
    match start {
        BoundView::Included(k) => Some(k),
        BoundView::Excluded(k) => Some(incr_spec(k)),
        BoundView::Unbounded => None,
    }
}

/// The upper bound, itself not reached, of an iteration that ends at `end`.
pub open spec fn upper_bound_of(end: BoundView) -> Option<Seq<u8>> {
    match end {
        BoundView::Included(k) => Some(incr_spec(k)),
        BoundView::Excluded(k) => Some(k),
        BoundView::Unbounded => None,
    }
}

/// The order of keys: that of their bytes.
pub open spec fn bytes() -> spec_fn(Seq<u8>) -> Seq<u8> {
    |a: Seq<u8>| a
}

/// The entries of a vector as pairs of byte strings.
pub open spec fn entries_view(entries: Seq<(Vec<u8>, Vec<u8>)>) -> Seq<(Seq<u8>, Seq<u8>)> {
    entries.map_values(|e: (Vec<u8>, Vec<u8>)| (e.0@, e.1@))
}

/// The writes that wait for the next commit of a Merkle key-value store,
/// in the order of their keys.
#[derive(Debug)]
pub struct MerkStorageBackend {
    stage: Vec<(Vec<u8>, Vec<u8>)>,
}

impl View for MerkStorageBackend {
    type V = Seq<(Seq<u8>, Seq<u8>)>;

    closed spec fn view(&self) -> Seq<(Seq<u8>, Seq<u8>)> {
        entries_view(self.stage@)
    }
}

impl MerkStorageBackend {
    /// The keys of the stage strictly increase.
    pub open spec fn wf(&self) -> bool {
        sorted(self@, bytes())
    }

    /// The backend of a store that was just opened: nothing is staged.
    pub fn create() -> (r: MerkStorageBackend)
        ensures
            r@ == Seq::<(Seq<u8>, Seq<u8>)>::empty(),
            r.wf(),
    {
        let r = MerkStorageBackend { stage: Vec::new() };
        assert(r@ =~= Seq::<(Seq<u8>, Seq<u8>)>::empty());
        r
    }

    /// The backend of a store that was just opened: nothing is staged.
    pub fn load() -> (r: MerkStorageBackend)
        ensures
            r@ == Seq::<(Seq<u8>, Seq<u8>)>::empty(),
            r.wf(),
    {
        MerkStorageBackend::create()
    }

    /// The value that is staged under `key`; none where the committed
    /// store has to be read.
    pub fn get_staged(&self, key: &[u8]) -> (r: Option<Vec<u8>>)
        ensures
            opt_view(r) == lookup(self@, key@),
    {
        let mut i: usize = self.stage.len();
        assert(self@.take(i as int) =~= self@);
        while i > 0
            invariant
                i <= self.stage.len(),
                lookup(self@, key@) == lookup(self@.take(i as int), key@),
            decreases i,
        {
            let ghost part = self@.take(i as int);
            i -= 1;
            assert(part.last() == self@[i as int]);
            assert(part.drop_last() =~= self@.take(i as int));
            match compare(self.stage[i].0.as_slice(), key) {
                Order::Equal => {
                    return Some(slice_to_vec(self.stage[i].1.as_slice()));
                },
                _ => {},
            }
        }
        assert(self@.take(0) =~= Seq::<(Seq<u8>, Seq<u8>)>::empty());
        None
    }

    /// Stages `value` under `key`, in place of the value that was staged
    /// there, if any.
    pub fn put(&mut self, key: Vec<u8>, value: Vec<u8>)
        ensures
            final(self)@ == put(old(self)@, key@, value@, bytes()),
            old(self).wf() ==> final(self).wf(),
    {
        let ghost before = self@;
        let ghost k = key@;
        let ghost v = value@;
        let mut i: usize = self.stage.len();
        let mut below = false;
        assert(before.take(i as int) =~= before);
        assert(before.skip(i as int) =~= Seq::<(Seq<u8>, Seq<u8>)>::empty());
        assert(put(before, k, v, bytes()) =~= put(before.take(i as int), k, v, bytes())
            + before.skip(i as int));
        while i > 0 && !below
            invariant
                i <= self.stage.len(),
                self@ == before,
                old(self)@ == before,
                before.len() == self.stage.len(),
                key@ == k,
                value@ == v,
                put(before, k, v, bytes()) == put(before.take(i as int), k, v, bytes())
                    + before.skip(i as int),
                forall|j: int| i <= j < before.len() ==> lex_lt(k, #[trigger] before[j].0),
                below ==> i > 0 && lex_lt(before[i - 1].0, k),
            decreases i - (if below { 1int } else { 0int }),
        {
            match compare(self.stage[i - 1].0.as_slice(), key.as_slice()) {
                Order::Equal => {
                    proof {
                        lemma_put_same(before, i as int, k, v, bytes());
                    }
                    self.stage.set(i - 1, (key, value));
                    assert(self@ =~= before.update(i - 1, (k, v)));
                    return ;
                },
                Order::Less => {
                    below = true;
                },
                Order::Greater => {
                    proof {
                        lemma_lex_total(before[i - 1].0, k);
                        lemma_put_above(before, i as int, k, v, bytes());
                    }
                    i -= 1;
                },
            }
        }
        proof {
            lemma_put_below(before, i as int, k, v, bytes());
        }
        self.stage.insert(i, (key, value));
        assert(self@ =~= before.insert(i as int, (k, v)));
    }

    /// Takes what is staged, as the batch that the store is to apply: its
    /// keys strictly increase where those of the stage did. Nothing is
    /// staged afterwards.
    pub fn commit(&mut self) -> (batch: Vec<(Vec<u8>, Vec<u8>)>)
        ensures
            entries_view(batch@) == old(self)@,
            old(self).wf() ==> sorted(entries_view(batch@), bytes()),
            final(self)@ == Seq::<(Seq<u8>, Seq<u8>)>::empty(),
            final(self).wf(),
    {
        let mut batch: Vec<(Vec<u8>, Vec<u8>)> = Vec::new();
        std::mem::swap(&mut batch, &mut self.stage);
        assert(self@ =~= Seq::<(Seq<u8>, Seq<u8>)>::empty());
        batch
    }

    /// The bounds between which the store iterates for the range from
    /// `start` to `end`, and the end at which it starts.
    pub fn iter(&self, start: Bound, end: Bound, direction: Direction) -> (r: IterOptions)
        ensures
            opt_view(r.lower_bound) == lower_bound_of(start@),
            opt_view(r.upper_bound) == upper_bound_of(end@),
            r.from_end == (direction == Direction::Backward),
    {
        let lower_bound = match start {
            Bound::Included(s) => Some(s),
            Bound::Excluded(s) => Some(incr(s)),
            Bound::Unbounded => None,
        };
        let upper_bound = match end {
            Bound::Included(e) => Some(incr(e)),
            Bound::Excluded(e) => Some(e),
            Bound::Unbounded => None,
        };
        let from_end = match direction {
            Direction::Forward => false,
            Direction::Backward => true,
        };
        IterOptions { lower_bound, upper_bound, from_end }
    }
}

} // verus!
