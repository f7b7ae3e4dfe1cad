//! Sets and maps as lists of what they hold, in the order in which they are
//! walked, which is left open.

use std::collections::{HashMap, HashSet};

use vstd::prelude::*;

verus! {

/// Whether `list` lists the elements of `set`, each once.
pub open spec fn lists<A>(list: Seq<A>, set: Set<A>) -> bool {
    list.no_duplicates() && list.to_set() == set
}

/// The elements of a set.
pub(crate) fn set_elements(set: &HashSet<u64>) -> (list: Vec<u64>)
    ensures
        lists(list@, set@),
{
    let mut list: Vec<u64> = Vec::new();
    for element in iter: set.iter()
        invariant
            iter.seq().unref().to_set() == set@,
            iter.seq().no_duplicates(),
            list@ == iter.seq().unref().take(iter.index()),
            list@.no_duplicates(),
            iter.index() == iter.seq().len() ==> list@.to_set() == set@,
    {
        list.push(*element);
        proof {
            assert(list@ =~= iter.seq().unref().take(iter.index() + 1));
            assert(iter.seq().unref().no_duplicates());
            assert(iter.index() + 1 == iter.seq().len() ==> list@ =~= iter.seq().unref());
        }
    }
    list
}

/// The keys of a map.
pub(crate) fn map_keys(map: &HashMap<i64, u64>) -> (list: Vec<i64>)
    ensures
        lists(list@, map@.dom()),
{
    let mut list: Vec<i64> = Vec::new();
    for key in iter: map.keys()
        invariant
            iter.seq().unref().to_set() == map@.dom(),
            iter.seq().no_duplicates(),
            list@ == iter.seq().unref().take(iter.index()),
            list@.no_duplicates(),
            iter.index() == iter.seq().len() ==> list@.to_set() == map@.dom(),
    {
        list.push(*key);
        proof {
            assert(list@ =~= iter.seq().unref().take(iter.index() + 1));
            assert(iter.seq().unref().no_duplicates());
            assert(iter.index() + 1 == iter.seq().len() ==> list@ =~= iter.seq().unref());
        }
    }
    list
}

/// Filtering one more element of a list.
pub proof fn lemma_filter_step<A>(all: Seq<A>, keep: spec_fn(A) -> bool, i: int)
    requires
        0 <= i < all.len(),
    ensures
        all.take(i + 1).filter(keep) == if keep(all[i]) {
            all.take(i).filter(keep).push(all[i])
        } else {
            all.take(i).filter(keep)
        },
{
    reveal(Seq::filter);
    assert(all.take(i + 1).drop_last() =~= all.take(i));
}

/// Filtering a list of a set gives a list of the part that is kept.
pub proof fn lemma_filter_lists<A>(
    all: Seq<A>,
    keep: spec_fn(A) -> bool,
    set: Set<A>,
    part: Set<A>,
)
    requires
        lists(all, set),
        forall|a: A| #[trigger] part.contains(a) <==> set.contains(a) && keep(a),
    ensures
        lists(all.filter(keep), part),
{
    lemma_filter_keeps(all, keep);
    assert forall|a: A| #[trigger] all.filter(keep).to_set().contains(a) <==> part.contains(a) by {
        assert(set.contains(a) <==> all.contains(a)) by {
            assert(all.to_set().contains(a) <==> all.contains(a));
        }
    }
    assert(all.filter(keep).to_set() =~= part);
}

proof fn lemma_filter_keeps<A>(all: Seq<A>, keep: spec_fn(A) -> bool)
    requires
        all.no_duplicates(),
    ensures
        all.filter(keep).no_duplicates(),
        forall|a: A| #[trigger] all.filter(keep).contains(a) <==> all.contains(a) && keep(a),
    decreases all.len(),
{
    reveal(Seq::filter);
    if all.len() > 0 {
        let shorter = all.drop_last();
        let last = all.last();
        lemma_filter_keeps(shorter, keep);
        let kept = shorter.filter(keep);
        assert(!shorter.contains(last)) by {
            if shorter.contains(last) {
                let i = choose|i: int| 0 <= i < shorter.len() && shorter[i] == last;
                assert(all[i] == all[all.len() - 1]);
            }
        }
        assert forall|a: A| all.contains(a) <==> shorter.contains(a) || a == last by {
            if all.contains(a) {
                let i = choose|i: int| 0 <= i < all.len() && all[i] == a;
                if i < shorter.len() {
                    assert(shorter[i] == a);
                }
            }
            if shorter.contains(a) {
                let i = choose|i: int| 0 <= i < shorter.len() && shorter[i] == a;
                assert(all[i] == a);
            }
            if a == last {
                assert(all[all.len() - 1] == a);
            }
        }
        assert forall|a: A| #[trigger] all.filter(keep).contains(a) <==> all.contains(a) && keep(
            a,
        ) by {
            assert(kept.contains(a) <==> shorter.contains(a) && keep(a));
            if keep(last) {
                let grown = kept.push(last);
                if grown.contains(a) {
                    let i = choose|i: int| 0 <= i < grown.len() && grown[i] == a;
                    if i < kept.len() {
                        assert(kept[i] == a);
                    }
                }
                if kept.contains(a) {
                    let i = choose|i: int| 0 <= i < kept.len() && kept[i] == a;
                    assert(grown[i] == a);
                }
                if a == last {
                    assert(grown[kept.len() as int] == a);
                }
            }
        }
        if keep(last) {
            assert(!kept.contains(last));
        }
    }
}

} // verus!
