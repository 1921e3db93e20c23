//! Ordering a listing: a verified sort for anything that says which of two
//! items stands first.

use vstd::prelude::*;
use vstd::seq_lib::*;
use vstd::string::*;
use crate::text::{lemma_text_le_total, lemma_text_le_transitive, str_le, text_le};

verus! {

/// Items that are listed in an order of their own.
pub trait Ranked: Sized {
    /// What the order looks at: the item as plain values.
    type Key;

    spec fn key(&self) -> Self::Key;

    /// Whether an item with key `a` may stand before one with key `b`.
    spec fn key_before(a: Self::Key, b: Self::Key) -> bool;

    /// Of two items one may always stand before the other.
    proof fn lemma_before_total(a: Self::Key, b: Self::Key)
        ensures
            Self::key_before(a, b) || Self::key_before(b, a),
    ;

    proof fn lemma_before_transitive(a: Self::Key, b: Self::Key, c: Self::Key)
        requires
            Self::key_before(a, b),
            Self::key_before(b, c),
        ensures
            Self::key_before(a, c),
    ;

    fn stands_before(&self, other: &Self) -> (r: bool)
        ensures
            r == Self::key_before(self.key(), other.key()),
    ;
}

/// The keys of a list of items.
pub open spec fn keys<T: Ranked>(items: Seq<T>) -> Seq<T::Key> {
    Seq::new(items.len(), |i: int| items[i].key())
}

/// Every key may stand before all that follow it.
pub open spec fn in_order<T: Ranked>(k: Seq<T::Key>) -> bool {
    forall|i: int, j: int| 0 <= i < j < k.len() ==> T::key_before(k[i], k[j])
}

/// Inserting into a sequence adds one occurrence of the value and nothing
/// else.
pub proof fn lemma_insert_multiset<A>(s: Seq<A>, i: int, a: A)
    requires
        0 <= i <= s.len(),
    ensures
        s.insert(i, a).to_multiset() == s.to_multiset().insert(a),
{
    broadcast use group_to_multiset_ensures;

    let t = s.insert(i, a);
    assert(t.remove(i) =~= s);
    assert(t[i] == a);
    assert(t.contains(a));
    assert(t.to_multiset() =~= s.to_multiset().insert(a));
}

/// A sequence pushed onto and then filtered is the filtered sequence,
/// with the new element if it passes.
pub proof fn lemma_filter_push<A>(s: Seq<A>, x: A, pred: spec_fn(A) -> bool)
    ensures
        s.push(x).filter(pred) == if pred(x) {
            s.filter(pred).push(x)
        } else {
            s.filter(pred)
        },
{
    reveal(Seq::filter);
    assert(s.push(x).drop_last() =~= s);
}

/// The same items in their order. Items that may stand either way round
/// keep the order in which they came.
pub fn sort_ranked<T: Ranked>(items: Vec<T>) -> (sorted: Vec<T>)
    ensures
        keys(sorted@).to_multiset() == keys(items@).to_multiset(),
        in_order::<T>(keys(sorted@)),
{
    let mut out: Vec<T> = Vec::new();
    let ghost all = items@;
    assert(keys(all).take(0) =~= keys(out@));
    for item in iter: items
        invariant
            iter.seq() == all,
            keys(out@).to_multiset() == keys(all).take(iter.index() as int).to_multiset(),
            in_order::<T>(keys(out@)),
    {
        let ghost before = out@;
        let ghost idx = iter.index() as int;
        let mut p: usize = 0;
        while p < out.len() && out[p].stands_before(&item)
            invariant
                p <= out.len(),
                out@ == before,
                forall|j: int| 0 <= j < p ==> T::key_before(#[trigger] keys(before)[j], item.key()),
            decreases out.len() - p,
        {
            p += 1;
        }
        out.insert(p, item);
        proof {
            let kb = keys(before);
            let ka = keys(out@);
            assert(ka =~= kb.insert(p as int, item.key()));
            lemma_insert_multiset(kb, p as int, item.key());
            assert(keys(all).take(idx + 1) =~= keys(all).take(idx).push(item.key()));
            broadcast use group_to_multiset_ensures;

            assert forall|i: int, j: int| 0 <= i < j < ka.len() implies T::key_before(
                ka[i],
                ka[j],
            ) by {
                if j == p {
                    assert(ka[i] == kb[i]);
                } else if i == p {
                    assert(ka[j] == kb[j - 1]);
                    T::lemma_before_total(kb[p as int], item.key());
                    if j - 1 > p {
                        T::lemma_before_transitive(item.key(), kb[p as int], kb[j - 1]);
                    }
                } else {
                    let i0 = if i < p { i } else { i - 1 };
                    let j0 = if j < p { j } else { j - 1 };
                    assert(ka[i] == kb[i0]);
                    assert(ka[j] == kb[j0]);
                }
            }
        }
    }
    assert(keys(all).take(all.len() as int) =~= keys(all));
    out
}

/// Names are listed last first: a name stands before every name that is
/// smaller in the order of `text_le`.
impl Ranked for String {
    type Key = Seq<char>;

    open spec fn key(&self) -> Seq<char> {
        self@
    }

    open spec fn key_before(a: Seq<char>, b: Seq<char>) -> bool {
        text_le(b, a)
    }

    proof fn lemma_before_total(a: Seq<char>, b: Seq<char>) {
        lemma_text_le_total(a, b);
    }

    proof fn lemma_before_transitive(a: Seq<char>, b: Seq<char>, c: Seq<char>) {
        lemma_text_le_transitive(c, b, a);
    }

    fn stands_before(&self, other: &String) -> (r: bool) {
        str_le(other.as_str(), self.as_str())
    }
}

} // verus!
