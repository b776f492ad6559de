//! Facts about filtered sequences that the rest of the library builds on.

use vstd::prelude::*;

verus! {

/// Filtering one element more: the element is appended if it passes.
pub proof fn lemma_filter_take_step<A>(s: Seq<A>, pred: spec_fn(A) -> bool, i: int)
    requires
        0 <= i < s.len(),
    ensures
        s.take(i + 1).filter(pred) == if pred(s[i]) {
            s.take(i).filter(pred).push(s[i])
        } else {
            s.take(i).filter(pred)
        },
{
    reveal(Seq::filter);
    assert(s.take(i + 1).drop_last() =~= s.take(i));
    assert(s.take(i + 1).last() == s[i]);
}

/// Filtering nothing gives nothing, and taking all of a sequence gives the
/// sequence.
pub proof fn lemma_filter_take_ends<A>(s: Seq<A>, pred: spec_fn(A) -> bool)
    ensures
        s.take(0).filter(pred) == Seq::<A>::empty(),
        s.take(s.len() as int) == s,
{
    reveal(Seq::filter);
    assert(s.take(0).filter(pred) =~= Seq::<A>::empty());
    assert(s.take(s.len() as int) =~= s);
}

/// Every element that a filter keeps comes from the filtered sequence and
/// passes the test, and the filter keeps the order: the places that the
/// kept elements come from go up strictly.
pub proof fn lemma_filter_sources<A>(s: Seq<A>, pred: spec_fn(A) -> bool) -> (src: Seq<int>)
    ensures
        src.len() == s.filter(pred).len(),
        forall|k: int|
            0 <= k < src.len() ==> 0 <= #[trigger] src[k] < s.len() && s.filter(pred)[k] == s[src[k]]
                && pred(s[src[k]]),
        forall|k: int, l: int| 0 <= k < l < src.len() ==> src[k] < src[l],
        forall|i: int|
            0 <= i < s.len() && pred(s[i]) ==> exists|k: int|
                0 <= k < src.len() && #[trigger] src[k] == i,
    decreases s.len(),
{
    reveal(Seq::filter);
    if s.len() == 0 {
        Seq::empty()
    } else {
        let before = lemma_filter_sources(s.drop_last(), pred);
        let last: int = s.len() - 1;
        if pred(s.last()) {
            let src = before.push(last);
            assert forall|i: int| 0 <= i < s.len() && pred(s[i]) implies exists|k: int|
                0 <= k < src.len() && #[trigger] src[k] == i by {
                if i < last {
                    assert(s.drop_last()[i] == s[i]);
                    let k = choose|k: int| 0 <= k < before.len() && #[trigger] before[k] == i;
                    assert(src[k] == i);
                } else {
                    assert(src[before.len() as int] == i);
                }
            }
            src
        } else {
            assert forall|i: int| 0 <= i < s.len() && pred(s[i]) implies exists|k: int|
                0 <= k < before.len() && #[trigger] before[k] == i by {
                assert(i < last);
                assert(s.drop_last()[i] == s[i]);
            }
            before
        }
    }
}

/// A filter of a sequence without duplicates has no duplicates.
pub proof fn lemma_filter_no_duplicates<A>(s: Seq<A>, pred: spec_fn(A) -> bool)
    requires
        s.no_duplicates(),
    ensures
        s.filter(pred).no_duplicates(),
{
    let src = lemma_filter_sources(s, pred);
    assert forall|k: int, l: int|
        0 <= k < s.filter(pred).len() && 0 <= l < s.filter(pred).len() && k != l implies s.filter(
        pred,
    )[k] != s.filter(pred)[l] by {
        if k < l {
            assert(src[k] < src[l]);
        } else {
            assert(src[l] < src[k]);
        }
    }
}

} // verus!
