//! Facts about filtering a sequence that grows at its end.

use vstd::prelude::*;

verus! {

/// What `filter_map` gives when one more item is put behind a sequence.
pub proof fn lemma_filter_map_push<A, B>(items: Seq<A>, item: A, f: spec_fn(A) -> Option<B>)
    ensures
        items.push(item).filter_map(f) == match f(item) {
            Some(b) => items.filter_map(f).push(b),
            None => items.filter_map(f),
        },
{
    assert(items.push(item).drop_last() =~= items);
    assert(items.push(item).last() == item);
    match f(item) {
        Some(b) => {
            assert(items.filter_map(f) + seq![b] =~= items.filter_map(f).push(b));
        },
        None => {},
    }
}

/// What `filter` gives when one more item is put behind a sequence.
pub proof fn lemma_filter_push<A>(items: Seq<A>, item: A, f: spec_fn(A) -> bool)
    ensures
        items.push(item).filter(f) == if f(item) {
            items.filter(f).push(item)
        } else {
            items.filter(f)
        },
{
    reveal(Seq::filter);
    assert(items.push(item).drop_last() =~= items);
    assert(items.push(item).last() == item);
}

/// A filter that no item passes leaves nothing.
pub proof fn lemma_filter_none<A>(items: Seq<A>, f: spec_fn(A) -> bool)
    requires
        forall|i: int| 0 <= i < items.len() ==> !f(#[trigger] items[i]),
    ensures
        items.filter(f) == Seq::<A>::empty(),
    decreases items.len(),
{
    reveal(Seq::filter);
    if items.len() > 0 {
        lemma_filter_none(items.drop_last(), f);
    }
}

} // verus!
