//! Stable sorting by a key.

use vstd::prelude::*;

verus! {

/// Something that can be put in order.
pub trait Ranked: Sized {
    /// True if `self` has to stand before `other`.
    spec fn precedes(&self, other: &Self) -> bool;

    /// The order is strict, and being neither before nor after is transitive.
    proof fn order_laws(a: &Self, b: &Self, c: &Self)
        ensures
            !a.precedes(a),
            a.precedes(b) ==> !b.precedes(a),
            a.precedes(b) && b.precedes(c) ==> a.precedes(c),
            a.precedes(c) ==> a.precedes(b) || b.precedes(c),
    ;

    /// True if `self` has to stand before `other`.
    fn goes_before(&self, other: &Self) -> (yes: bool)
        ensures
            yes == self.precedes(other),
    ;
}

/// True if position `i` of a list stands before its position `j` once the list
/// is sorted: its key is the lesser one, or the keys tie and it came first.
pub open spec fn sorts_before<K: Ranked>(keys: Seq<K>, i: int, j: int) -> bool {
    keys[i].precedes(&keys[j]) || (!keys[j].precedes(&keys[i]) && i < j)
}

/// True if `order` lists the positions of `keys`, each one once.
pub open spec fn lists_positions(order: Seq<usize>, count: nat) -> bool {
    &&& order.len() == count
    &&& forall|i: int| 0 <= i < order.len() ==> (#[trigger] order[i]) < count
    &&& forall|i: int, j: int|
        0 <= i < j < order.len() ==> #[trigger] order[i] != #[trigger] order[j]
}

/// True if `order` lists the positions of `keys` as a stable sort puts them.
pub open spec fn is_stable_order<K: Ranked>(keys: Seq<K>, order: Seq<usize>) -> bool {
    &&& lists_positions(order, keys.len())
    &&& forall|i: int, j: int|
        0 <= i < j < order.len() ==> sorts_before(
            keys,
            #[trigger] order[i] as int,
            #[trigger] order[j] as int,
        )
}

/// The positions of `keys` as a stable sort puts them.
pub fn stable_order<K: Ranked>(keys: &Vec<K>) -> (order: Vec<usize>)
    ensures
        is_stable_order(keys@, order@),
{
    let mut order: Vec<usize> = Vec::new();
    for n in 0..keys.len()
        invariant
            lists_positions(order@, n as nat),
            n <= keys@.len(),
            forall|i: int, j: int|
                0 <= i < j < order@.len() ==> sorts_before(
                    keys@,
                    #[trigger] order@[i] as int,
                    #[trigger] order@[j] as int,
                ),
    {
        let ghost before = order@;
        let mut place: usize = n;
        while place > 0 && keys[n].goes_before(&keys[order[place - 1]])
            invariant
                order@ == before,
                lists_positions(before, n as nat),
                place <= n < keys@.len(),
                forall|j: int|
                    place <= j < n ==> keys@[n as int].precedes(
                        &keys@[#[trigger] before[j] as int],
                    ),
            decreases place,
        {
            place -= 1;
        }
        proof {
            assert forall|i: int| 0 <= i < place implies !keys@[n as int].precedes(
                &keys@[#[trigger] before[i] as int],
            ) by {
                let last = before[place - 1] as int;
                if i < place - 1 {
                    assert(sorts_before(keys@, before[i] as int, last));
                }
                K::order_laws(&keys@[n as int], &keys@[last], &keys@[before[i] as int]);
                K::order_laws(&keys@[n as int], &keys@[before[i] as int], &keys@[last]);
            }
        }
        order.insert(place, n);
        proof {
            assert(order@ == before.insert(place as int, n));
            assert forall|i: int, j: int| 0 <= i < j < order@.len() implies sorts_before(
                keys@,
                #[trigger] order@[i] as int,
                #[trigger] order@[j] as int,
            ) by {
                let from = if i < place {
                    i
                } else {
                    i - 1
                };
                let to = if j < place {
                    j
                } else {
                    j - 1
                };
                if i == place {
                    assert(keys@[n as int].precedes(&keys@[before[to] as int]));
                } else if j == place {
                    assert(!keys@[n as int].precedes(&keys@[before[from] as int]));
                } else {
                    assert(sorts_before(keys@, before[from] as int, before[to] as int));
                }
            }
        }
    }
    order
}

/// There is one stable order only.
pub proof fn stable_order_is_unique<K: Ranked>(keys: Seq<K>, a: Seq<usize>, b: Seq<usize>)
    requires
        is_stable_order(keys, a),
        is_stable_order(keys, b),
    ensures
        a == b,
{
    assert forall|n: int| 0 <= n <= a.len() implies a.take(n) == b.take(n) by {
        lemma_same_prefix(keys, a, b, n);
    }
    assert(a.take(a.len() as int) == a);
    assert(b.take(b.len() as int) == b);
}

/// The positions of a list that can be written down are machine numbers.
pub proof fn lemma_positions_fit(order: Seq<usize>)
    requires
        lists_positions(order, order.len()),
    ensures
        order.len() <= usize::MAX + 1,
{
    let numbers = order.map_values(|p: usize| p as int);
    assert(numbers.no_duplicates());
    numbers.unique_seq_to_set();
    let all = vstd::set_lib::set_int_range(0, usize::MAX + 1);
    vstd::set_lib::lemma_int_range(0, usize::MAX + 1);
    assert(numbers.to_set().subset_of(all)) by {
        assert forall|n: int| numbers.to_set().contains(n) implies all.contains(n) by {
            let i = choose|i: int| 0 <= i < numbers.len() && numbers[i] == n;
            assert(order[i] <= usize::MAX);
        }
    }
    vstd::set_lib::lemma_len_subset(numbers.to_set(), all);
}

/// A list of all positions below `order.len()` holds each of them.
pub proof fn lemma_every_position_listed(order: Seq<usize>, position: usize)
    requires
        lists_positions(order, order.len()),
        position < order.len(),
    ensures
        order.contains(position),
{
    if !order.contains(position) {
        let count = order.len() as int;
        let numbers = order.map_values(|p: usize| p as int);
        assert(numbers.no_duplicates());
        numbers.unique_seq_to_set();
        vstd::set_lib::lemma_int_range(0, count);
        let others = vstd::set_lib::set_int_range(0, count).remove(position as int);
        assert(numbers.to_set().subset_of(others)) by {
            assert forall|n: int| numbers.to_set().contains(n) implies others.contains(n) by {
                let i = choose|i: int| 0 <= i < numbers.len() && numbers[i] == n;
                assert(order[i] < count);
            }
        }
        vstd::set_lib::lemma_len_subset(numbers.to_set(), others);
    }
}

proof fn lemma_same_prefix<K: Ranked>(keys: Seq<K>, a: Seq<usize>, b: Seq<usize>, n: int)
    requires
        is_stable_order(keys, a),
        is_stable_order(keys, b),
        0 <= n <= a.len(),
    ensures
        a.take(n) == b.take(n),
    decreases n,
{
    if n > 0 {
        lemma_same_prefix(keys, a, b, n - 1);
        let k = n - 1;
        if a[k] != b[k] {
            lemma_every_position_listed(b, a[k]);
            lemma_every_position_listed(a, b[k]);
            let i = choose|i: int| 0 <= i < b.len() && b[i] == a[k];
            let j = choose|j: int| 0 <= j < a.len() && a[j] == b[k];
            if i < k {
                assert(a.take(k)[i] == b.take(k)[i]);
            }
            if j < k {
                assert(a.take(k)[j] == b.take(k)[j]);
            }
            assert(k < i && k < j);
            assert(sorts_before(keys, b[k] as int, b[i] as int));
            assert(sorts_before(keys, a[k] as int, a[j] as int));
            K::order_laws(&keys[a[k] as int], &keys[b[k] as int], &keys[a[k] as int]);
        }
        assert(a.take(n) == a.take(k).push(a[k]));
        assert(b.take(n) == b.take(k).push(b[k]));
    }
}

} // verus!
