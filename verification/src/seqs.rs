//! Small facts about `Seq::filter` that the table operations lean on:
//! how a filter grows by one element, that filtered elements come from the
//! source, and that filtering keeps a sorted sequence sorted.

use vstd::prelude::*;

verus! {

/// Filtering after appending one element appends it when it passes.
pub proof fn lemma_filter_push<A>(s: Seq<A>, v: A, pred: spec_fn(A) -> bool)
    ensures
        s.push(v).filter(pred) == if pred(v) {
            s.filter(pred).push(v)
        } else {
            s.filter(pred)
        },
{
    reveal(Seq::filter);
    assert(s.push(v).drop_last() =~= s);
    assert(s.push(v).last() == v);
    if pred(v) {
        assert(s.push(v).filter(pred) =~= s.filter(pred).push(v));
    } else {
        assert(s.push(v).filter(pred) =~= s.filter(pred));
    }
}

/// Every element of a filtered sequence is an element of the source.
pub proof fn lemma_filter_mem<A>(s: Seq<A>, pred: spec_fn(A) -> bool)
    ensures
        forall|k: int|
            0 <= k < s.filter(pred).len() ==> exists|i: int|
                0 <= i < s.len() && s[i] == #[trigger] s.filter(pred)[k],
    decreases s.len(),
{
    reveal(Seq::filter);
    if s.len() > 0 {
        lemma_filter_mem(s.drop_last(), pred);
        let f = s.filter(pred);
        let fd = s.drop_last().filter(pred);
        assert forall|k: int| 0 <= k < f.len() implies exists|i: int|
            0 <= i < s.len() && s[i] == #[trigger] f[k] by {
            if pred(s.last()) && k == f.len() - 1 {
                assert(s[s.len() - 1] == f[k]);
            } else {
                assert(f[k] == fd[k]);
                let i = choose|i: int| 0 <= i < s.drop_last().len() && s.drop_last()[i] == fd[k];
                assert(s[i] == f[k]);
            }
        }
    }
}

/// Filtering keeps any ordering that held between the source's elements,
/// stated here for an order given as a relation on elements.
pub proof fn lemma_filter_sorted<A>(s: Seq<A>, pred: spec_fn(A) -> bool, le: spec_fn(A, A) -> bool)
    requires
        forall|i: int, j: int| 0 <= i < j < s.len() ==> #[trigger] le(s[i], s[j]),
    ensures
        forall|i: int, j: int|
            0 <= i < j < s.filter(pred).len() ==> #[trigger] le(
                s.filter(pred)[i],
                s.filter(pred)[j],
            ),
    decreases s.len(),
{
    reveal(Seq::filter);
    if s.len() > 0 {
        let d = s.drop_last();
        assert(forall|i: int, j: int| 0 <= i < j < d.len() ==> #[trigger] le(d[i], d[j]));
        lemma_filter_sorted(d, pred, le);
        lemma_filter_mem(d, pred);
        let f = s.filter(pred);
        let fd = d.filter(pred);
        assert forall|i: int, j: int| 0 <= i < j < f.len() implies #[trigger] le(f[i], f[j]) by {
            if pred(s.last()) && j == f.len() - 1 {
                assert(f[i] == fd[i]);
                let w = choose|w: int| 0 <= w < d.len() && d[w] == fd[i];
                assert(le(s[w], s[s.len() - 1]));
            } else {
                assert(f[i] == fd[i] && f[j] == fd[j]);
            }
        }
    }
}

/// Whether a vector of ids holds the given id.
pub fn ids_contain(ids: &Vec<u32>, x: u32) -> (r: bool)
    ensures
        r == ids@.contains(x),
{
    let mut i: usize = 0;
    while i < ids.len()
        invariant
            i <= ids@.len(),
            forall|j: int| 0 <= j < i ==> ids@[j] != x,
        decreases ids@.len() - i,
    {
        if ids[i] == x {
            return true;
        }
        i = i + 1;
    }
    false
}

} // verus!
