//! The order in which a frontier hands out its states: greatest key first, and among equal
//! keys the one that was inserted first.

use vstd::prelude::*;

verus! {

/// The index of the greatest key, the first one if it occurs more than once; 0 if there is
/// no key.
pub open spec fn first_max(keys: Seq<int>) -> int
    decreases keys.len(),
{
    if keys.len() <= 1 {
        0
    } else {
        let earlier = first_max(keys.drop_last());
        if keys.last() > keys[earlier] {
            keys.len() - 1
        } else {
            earlier
        }
    }
}

/// No key is greater than the key at `index`, and every key before it is smaller.
pub open spec fn is_first_max(keys: Seq<int>, index: int) -> bool {
    &&& 0 <= index < keys.len()
    &&& forall|j: int| 0 <= j < keys.len() ==> #[trigger] keys[j] <= keys[index]
    &&& forall|j: int| 0 <= j < index ==> #[trigger] keys[j] < keys[index]
}

/// `first_max` finds the first greatest key.
pub proof fn lemma_first_max(keys: Seq<int>)
    requires
        keys.len() > 0,
    ensures
        is_first_max(keys, first_max(keys)),
    decreases keys.len(),
{
    if keys.len() > 1 {
        let rest = keys.drop_last();
        lemma_first_max(rest);
        let index = first_max(keys);
        assert forall|j: int| 0 <= j < keys.len() implies #[trigger] keys[j] <= keys[index] by {
            if j < rest.len() {
                assert(rest[j] == keys[j]);
            }
        }
        assert forall|j: int| 0 <= j < index implies #[trigger] keys[j] < keys[index] by {
            assert(rest[j] == keys[j]);
        }
    }
}

/// How the first greatest key of a prefix moves when the prefix grows by one key.
pub proof fn lemma_first_max_take_next(keys: Seq<int>, count: int)
    requires
        1 <= count < keys.len(),
    ensures
        first_max(keys.take(count + 1)) == if keys[count] > keys[first_max(keys.take(count))] {
            count
        } else {
            first_max(keys.take(count))
        },
        0 <= first_max(keys.take(count)) < count,
{
    assert(keys.take(count + 1).drop_last() =~= keys.take(count));
    lemma_first_max(keys.take(count));
}

/// Keys appended behind a sequence cannot lower its greatest key.
pub proof fn lemma_first_max_of_longer(keys: Seq<int>, more: Seq<int>)
    requires
        keys.len() > 0,
    ensures
        (keys + more)[first_max(keys + more)] >= keys[first_max(keys)],
{
    let all = keys + more;
    lemma_first_max(keys);
    lemma_first_max(all);
    assert(all[first_max(keys)] == keys[first_max(keys)]);
}

} // verus!
