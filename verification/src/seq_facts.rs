//! Facts about what a sequence holds, whatever the order.

use vstd::multiset::Multiset;
use vstd::prelude::*;
use vstd::seq_lib::{to_multiset_build, to_multiset_insert, to_multiset_len};

verus! {

/// A sequence without items holds nothing.
pub proof fn lemma_empty_multiset<T>(s: Seq<T>)
    requires
        s.len() == 0,
    ensures
        s.to_multiset() == Multiset::<T>::empty(),
{
    to_multiset_len(s);
}

/// The items of a sequence with one more put in front.
pub proof fn lemma_front_multiset<T>(x: T, s: Seq<T>)
    ensures
        (seq![x] + s).to_multiset() == s.to_multiset().insert(x),
{
    to_multiset_insert(s, 0, x);
    assert(s.insert(0, x) =~= seq![x] + s);
}

/// Taking item `i` out by moving the last item into its place leaves what
/// stood before `i` alone, and of what stood from `i` on it leaves all but
/// item `i`.
pub proof fn lemma_swap_remove_tail<T>(cur: Seq<T>, i: int)
    requires
        0 <= i < cur.len(),
    ensures
        cur.update(i, cur.last()).drop_last().subrange(0, i) == cur.subrange(0, i),
        cur.update(i, cur.last()).drop_last().subrange(i, cur.len() - 1).to_multiset()
            == cur.subrange(i + 1, cur.len() as int).to_multiset(),
{
    let len = cur.len() as int;
    let after = cur.update(i, cur.last()).drop_last();
    if i == len - 1 {
        assert(after.subrange(i, len - 1) =~= cur.subrange(i + 1, len));
    } else {
        let mid = cur.subrange(i + 1, len - 1);
        assert(after.subrange(i, len - 1) =~= seq![cur.last()] + mid);
        assert(cur.subrange(i + 1, len) =~= mid.push(cur.last()));
        lemma_front_multiset(cur.last(), mid);
        to_multiset_build(mid, cur.last());
    }
}

} // verus!
