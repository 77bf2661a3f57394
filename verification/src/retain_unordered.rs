//! Keeping the items of a vector that a predicate accepts, in place and
//! without regard to order.

use vstd::multiset::Multiset;
use vstd::prelude::*;
use vstd::seq_lib::to_multiset_build;
use crate::seq_facts::{lemma_empty_multiset, lemma_front_multiset, lemma_swap_remove_tail};

verus! {

/// One call of the predicate: the item as it was handed over, as the
/// predicate left it, and whether it is to stay.
pub struct Visit<T> {
    pub before: T,
    pub after: T,
    pub keep: bool,
}

/// The items that the visits were made to, in the order of the visits.
pub open spec fn befores<T>(visits: Seq<Visit<T>>) -> Seq<T> {
    visits.map_values(|v: Visit<T>| v.before)
}

/// The items that the visits said to keep, as the predicate left them, in
/// the order of the visits.
pub open spec fn kept<T>(visits: Seq<Visit<T>>) -> Seq<T>
    decreases visits.len(),
{
    if visits.len() == 0 {
        Seq::empty()
    } else if visits.last().keep {
        kept(visits.drop_last()).push(visits.last().after)
    } else {
        kept(visits.drop_last())
    }
}

/// Provides a `retain_unordered` method.
pub trait RetainUnordered<T> {
    /// The items held, in their order.
    spec fn items(&self) -> Seq<T>;

    /// Retains only the elements for which the predicate returns true,
    /// without any guarantees over visit or final order.
    ///
    /// Every element is handed to the predicate exactly once. What is left
    /// are the elements that it said to keep, as it left them.
    fn retain_unordered<F>(&mut self, f: F) where F: FnMut(&mut T) -> bool
        requires
            forall|x: &mut T| #[trigger] call_requires(f, (x,)),
        ensures
            exists|visits: Seq<Visit<T>>|
                {
                    &&& befores(visits).to_multiset() == old(self).items().to_multiset()
                    &&& final(self).items() == #[trigger] kept(visits)
                    &&& forall|visit: Visit<T>|
                        #[trigger] visits.contains(visit) ==> exists|r: &mut T|
                            *r == visit.before && *final(r) == visit.after
                                && #[trigger] call_ensures(f, (r,), visit.keep)
                },
    ;
}

impl<T> RetainUnordered<T> for Vec<T> {
    open spec fn items(&self) -> Seq<T> {
        self@
    }

    fn retain_unordered<F>(&mut self, f: F) where F: FnMut(&mut T) -> bool {
        let mut pred = f;
        let mut i: usize = 0;
        let ghost mut visits: Seq<Visit<T>> = Seq::empty();
        proof {
            assert(self@.subrange(0, self@.len() as int) =~= self@);
            lemma_empty_multiset(befores(visits));
        }
        while i < self.len()
            invariant
                pred == f,
                forall|x: &mut T| #[trigger] call_requires(f, (x,)),
                i <= self@.len(),
                self@.subrange(0, i as int) == kept(visits),
                befores(visits).to_multiset().add(
                    self@.subrange(i as int, self@.len() as int).to_multiset(),
                ) == old(self)@.to_multiset(),
                forall|visit: Visit<T>|
                    #[trigger] visits.contains(visit) ==> exists|r: &mut T|
                        *r == visit.before && *final(r) == visit.after && #[trigger] call_ensures(
                            f,
                            (r,),
                            visit.keep,
                        ),
            decreases self@.len() - i,
        {
            let ghost prev = self@;
            let ghost seen = visits;
            let keep = pred(&mut self[i]);
            let ghost cur = self@;
            let ghost visit = Visit { before: prev[i as int], after: cur[i as int], keep };
            proof {
                visits = seen.push(visit);
                assert(cur =~= prev.update(i as int, visit.after));
                assert(befores(visits) =~= befores(seen).push(visit.before));
                to_multiset_build(befores(seen), visit.before);
                assert(visits.drop_last() =~= seen);
                let rest = prev.subrange(i + 1, prev.len() as int);
                assert(prev.subrange(i as int, prev.len() as int) =~= seq![visit.before] + rest);
                lemma_front_multiset(visit.before, rest);
                assert(cur.subrange(i + 1, cur.len() as int) =~= rest);
                assert forall|made: Visit<T>| #[trigger] visits.contains(made) implies exists|
                    r: &mut T,
                |
                    *r == made.before && *final(r) == made.after && #[trigger] call_ensures(
                        f,
                        (r,),
                        made.keep,
                    ) by {
                    let k = choose|k: int| 0 <= k < visits.len() && visits[k] == made;
                    if k < seen.len() {
                        assert(seen.contains(made));
                    } else {
                        assert(made.keep == keep);
                    }
                }
            }
            if keep {
                i = i + 1;
            } else if self.len() > 1 {
                self.swap_remove(i);
                proof {
                    lemma_swap_remove_tail(cur, i as int);
                    assert(cur.subrange(0, i as int) =~= prev.subrange(0, i as int));
                }
            } else {
                self.remove(i);
            }
        }
        proof {
            lemma_empty_multiset(self@.subrange(self@.len() as int, self@.len() as int));
        }
    }
}

/// How often `x` occurs among the items of `s` that `accepts` lets through:
/// as often as in `s` if it is let through itself, and not at all otherwise.
pub proof fn lemma_filter_count<T>(s: Seq<T>, accepts: spec_fn(T) -> bool, x: T)
    ensures
        s.filter(accepts).to_multiset().count(x) == (if accepts(x) {
            s.to_multiset().count(x)
        } else {
            0
        }),
    decreases s.len(),
{
    reveal(Seq::filter);
    if s.len() == 0 {
        lemma_empty_multiset(s);
    } else {
        let front = s.drop_last();
        lemma_filter_count(front, accepts, x);
        assert(s =~= front.push(s.last()));
        to_multiset_build(front, s.last());
        if accepts(s.last()) {
            to_multiset_build(front.filter(accepts), s.last());
        }
    }
}

/// With a predicate that leaves every item as it is and decides by the item
/// alone, what `retain_unordered` leaves is what `accepts` lets through of
/// the items it found, each as often as it occurred.
pub proof fn lemma_kept_is_filter<T>(
    items: Seq<T>,
    visits: Seq<Visit<T>>,
    accepts: spec_fn(T) -> bool,
)
    requires
        befores(visits).to_multiset() == items.to_multiset(),
        forall|visit: Visit<T>| #[trigger]
            visits.contains(visit) ==> visit.after == visit.before && visit.keep == accepts(
                visit.before,
            ),
    ensures
        kept(visits).to_multiset() == items.filter(accepts).to_multiset(),
{
    lemma_kept_follows_befores(visits, accepts);
    assert forall|x: T|
        kept(visits).to_multiset().count(x) == items.filter(accepts).to_multiset().count(
            x,
        ) by {
        lemma_filter_count(befores(visits), accepts, x);
        lemma_filter_count(items, accepts, x);
    }
}

/// With such a predicate the items kept are the items visited that
/// `accepts` lets through, in the order of the visits.
pub proof fn lemma_kept_follows_befores<T>(visits: Seq<Visit<T>>, accepts: spec_fn(T) -> bool)
    requires
        forall|visit: Visit<T>| #[trigger]
            visits.contains(visit) ==> visit.after == visit.before && visit.keep == accepts(
                visit.before,
            ),
    ensures
        kept(visits) == befores(visits).filter(accepts),
    decreases visits.len(),
{
    reveal(Seq::filter);
    if visits.len() > 0 {
        let front = visits.drop_last();
        assert forall|visit: Visit<T>| #[trigger] front.contains(visit) implies visit.after
            == visit.before && visit.keep == accepts(visit.before) by {
            let k = choose|k: int| 0 <= k < front.len() && front[k] == visit;
            assert(front[k] == visits[k]);
            assert(visits.contains(visit));
        }
        lemma_kept_follows_befores(front, accepts);
        assert(visits.contains(visits.last()));
        assert(befores(visits).drop_last() =~= befores(front));
    }
}

} // verus!
