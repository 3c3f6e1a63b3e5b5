//! Results that come back from parallel work in any order, put back into the
//! order of the work they belong to.
//!
//! Each unit of work carries its position: the place of its entry in the
//! directory listing, or of its member in the archive. Whatever the order in
//! which the units finish, the results are gathered by position.

use vstd::prelude::*;
use vstd::set_lib::{lemma_int_range, lemma_len_subset, set_int_range};

verus! {

/// True if the positions are the numbers below the length, each of them once.
/// Two conditions say so: every position is below the length, and no two
/// items have the same position.
pub open spec fn is_arrangement<T>(tagged: Seq<(usize, T)>) -> bool {
    &&& forall|i: int| 0 <= i < tagged.len() ==> (#[trigger] tagged[i]).0 < tagged.len()
    &&& forall|i: int, j: int|
        0 <= i < j < tagged.len() ==> (#[trigger] tagged[i]).0 != (#[trigger] tagged[j]).0
}

/// Where in `tagged` the item with the given position stands.
pub open spec fn holder<T>(tagged: Seq<(usize, T)>, position: int) -> int {
    choose|i: int| 0 <= i < tagged.len() && (#[trigger] tagged[i]).0 == position
}

/// The items by position.
pub open spec fn arranged<T>(tagged: Seq<(usize, T)>) -> Seq<T> {
    Seq::new(tagged.len(), |position: int| tagged[holder(tagged, position)].1)
}

/// In an arrangement every position below the length is taken.
pub proof fn lemma_every_position_is_taken<T>(tagged: Seq<(usize, T)>, position: int)
    requires
        is_arrangement(tagged),
        0 <= position < tagged.len(),
    ensures
        0 <= holder(tagged, position) < tagged.len(),
        tagged[holder(tagged, position)].0 == position,
{
    let n = tagged.len() as int;
    if !exists|i: int| 0 <= i < tagged.len() && (#[trigger] tagged[i]).0 == position {
        let positions = Seq::new(tagged.len(), |i: int| tagged[i].0 as int);
        assert(positions.no_duplicates()) by {
            assert forall|i: int, j: int|
                0 <= i < positions.len() && 0 <= j < positions.len() && i != j implies positions[i]
                != positions[j] by {
                if i < j {
                    assert(tagged[i].0 != tagged[j].0);
                } else {
                    assert(tagged[j].0 != tagged[i].0);
                }
            }
        }
        positions.unique_seq_to_set();
        let others = set_int_range(0, n).remove(position);
        lemma_int_range(0, n);
        assert(positions.to_set().subset_of(others)) by {
            assert forall|p: int| positions.to_set().contains(p) implies others.contains(p) by {
                let i = choose|i: int| 0 <= i < positions.len() && positions[i] == p;
                assert(tagged[i].0 == p);
            }
        }
        lemma_len_subset(positions.to_set(), others);
        assert(false);
    }
}

/// What an arrangement gives does not depend on the order in which the tagged
/// items stand: each position has the one item that carries it.
pub proof fn lemma_arrival_order_does_not_matter<T>(
    first: Seq<(usize, T)>,
    second: Seq<(usize, T)>,
)
    requires
        is_arrangement(first),
        is_arrangement(second),
        first.len() == second.len(),
        forall|i: int| 0 <= i < first.len() ==> second.contains(#[trigger] first[i]),
    ensures
        arranged(first) == arranged(second),
{
    assert forall|position: int| 0 <= position < first.len() implies arranged(first)[position]
        == arranged(second)[position] by {
        lemma_every_position_is_taken(first, position);
        lemma_every_position_is_taken(second, position);
        let i = holder(first, position);
        let j = holder(second, position);
        assert(second.contains(first[i]));
        let k = choose|k: int| 0 <= k < second.len() && second[k] == first[i];
        if k < j {
            assert(second[k].0 != second[j].0);
        } else if j < k {
            assert(second[j].0 != second[k].0);
        }
    }
    assert(arranged(first) =~= arranged(second));
}

/// Puts each item at its position. Items whose positions are not the numbers
/// below their count, each once, are refused.
pub fn in_position_order<T>(tagged: Vec<(usize, T)>) -> (out: Option<Vec<T>>)
    ensures
        match out {
            Some(items) => is_arrangement(tagged@) && items@ == arranged(tagged@),
            None => !is_arrangement(tagged@),
        },
{
    let n = tagged.len();
    let ghost all = tagged@;
    let mut slots: Vec<Option<T>> = Vec::new();
    let mut made: usize = 0;
    while made < n
        invariant
            made <= n,
            slots@.len() == made,
            forall|k: int| 0 <= k < made ==> slots@[k] is None,
        decreases n - made,
    {
        slots.push(None);
        made += 1;
    }
    let ghost mut owner: Seq<int> = Seq::new(n as nat, |k: int| -1);
    for pair in it: tagged.into_iter()
        invariant
            it.seq() == all,
            all.len() == n,
            slots@.len() == n,
            owner.len() == n,
            forall|i: int|
                0 <= i < it.index() ==> (#[trigger] all[i]).0 < n && owner[all[i].0 as int] == i,
            forall|k: int|
                0 <= k < n && #[trigger] owner[k] >= 0 ==> owner[k] < it.index() && all[owner[k]].0
                    == k && slots@[k] == Some(all[owner[k]].1),
            forall|k: int| 0 <= k < n && #[trigger] owner[k] < 0 ==> slots@[k] is None,
    {
        let ghost at = it.index() as int;
        let (position, item) = pair;
        assert(all[at].0 == position);
        if position >= n {
            return None;
        }
        if slots[position].is_some() {
            proof {
                let earlier = owner[position as int];
                assert(earlier >= 0);
                assert(all[earlier].0 == all[at].0);
            }
            return None;
        }
        slots.set(position, Some(item));
        proof {
            owner = owner.update(position as int, at);
        }
    }
    proof {
        assert(is_arrangement(all)) by {
            assert forall|i: int, j: int| 0 <= i < j < all.len() implies (#[trigger] all[i]).0 != (
            #[trigger] all[j]).0 by {
                assert(owner[all[i].0 as int] == i);
                assert(owner[all[j].0 as int] == j);
            }
        }
        assert forall|k: int| 0 <= k < n implies #[trigger] owner[k] >= 0 && owner[k] == holder(
            all,
            k,
        ) by {
            lemma_every_position_is_taken(all, k);
            let i = holder(all, k);
            assert(owner[all[i].0 as int] == i);
        }
    }
    let ghost filled = slots@;
    let mut items: Vec<T> = Vec::new();
    for slot in it: slots.into_iter()
        invariant
            it.seq() == filled,
            filled.len() == n,
            all.len() == n,
            owner.len() == n,
            forall|k: int|
                0 <= k < n ==> #[trigger] owner[k] == holder(all, k) && 0 <= owner[k] < n
                    && filled[k] == Some(all[owner[k]].1),
            items@ == arranged(all).take(it.index() as int),
    {
        let ghost at = it.index() as int;
        assert(owner[at] == holder(all, at));
        match slot {
            Some(item) => {
                items.push(item);
                assert(items@ =~= arranged(all).take(at + 1));
            },
            None => {
                return None;
            },
        }
    }
    assert(arranged(all).take(n as int) =~= arranged(all));
    Some(items)
}

} // verus!
