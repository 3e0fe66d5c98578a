//! The pseudo-random stream of an engine: `rand`'s standard generator.

use rand::rngs::StdRng;
use rand::seq::SliceRandom;
use rand::RngCore;
use rand::SeedableRng;
use vstd::prelude::*;

verus! {

/// `rand::rngs::StdRng`, the standard generator. Nothing of its state is
/// visible to a contract.
#[verifier::external_type_specification]
#[verifier::external_body]
pub struct ExStdRng(rand::rngs::StdRng);

/// The indices below `count` in their natural order: `0, 1, .., count - 1`.
pub open spec fn index_range(count: nat) -> Seq<usize> {
    Seq::new(count, |i: int| i as usize)
}

/// `order` names every index below `count` exactly once, and nothing else.
pub open spec fn each_index_once(order: Seq<usize>, count: nat) -> bool {
    order.to_multiset() == index_range(count).to_multiset()
}

/// Calls `rand::seq::SliceRandom::shuffle` on the indices. The shuffle swaps
/// elements of the slice in place, so what it leaves holds the same indices,
/// each as often as before; in which order is up to the stream.
#[verifier::external_body]
pub(crate) fn shuffle_indices(indices: &mut Vec<usize>, rng: &mut StdRng)
    ensures
        final(indices)@.to_multiset() == old(indices)@.to_multiset(),
{
    indices.shuffle(rng);
}

/// Calls `rand::RngCore::next_u64` on the stream. Nothing is claimed of the
/// number drawn.
#[verifier::external_body]
pub(crate) fn draw_seed(rng: &mut StdRng) -> (seed: u64) {
    rng.next_u64()
}

/// Calls `rand::SeedableRng::seed_from_u64` for the standard generator.
/// Nothing is claimed of the stream that it starts.
#[verifier::external_body]
pub(crate) fn stream_from_seed(seed: u64) -> (rng: StdRng) {
    StdRng::seed_from_u64(seed)
}

/// An order that names every index below `count` once is `count` long, holds
/// only indices below `count`, none of them twice, and each of them.
pub proof fn lemma_order_in_range(order: Seq<usize>, count: nat)
    requires
        count <= usize::MAX,
        each_index_once(order, count),
    ensures
        order.len() == count,
        forall|k: int| 0 <= k < order.len() ==> (#[trigger] order[k]) < count,
        order.no_duplicates(),
        forall|x: usize| x < count ==> order.contains(x),
{
    let natural = index_range(count);
    broadcast use vstd::seq_lib::group_to_multiset_ensures;
    assert(order.len() == order.to_multiset().len());
    assert(natural.len() == natural.to_multiset().len());
    assert forall|x: usize| x < count implies order.contains(x) by {
        assert(natural[x as int] == x);
        assert(natural.contains(x));
        assert(natural.to_multiset().count(x) > 0);
        assert(order.to_multiset().count(x) > 0);
    }
    assert forall|k: int| 0 <= k < order.len() implies (#[trigger] order[k]) < count by {
        assert(order.contains(order[k]));
        assert(order.to_multiset().count(order[k]) > 0);
        assert(natural.to_multiset().count(order[k]) > 0);
        assert(natural.contains(order[k]));
        let j = choose|j: int| 0 <= j < natural.len() && natural[j] == order[k];
        assert(natural[j] == j);
    }
    assert forall|i: int, j: int| 0 <= i < natural.len() && 0 <= j < natural.len() && i != j implies natural[i]
        != natural[j] by {
        assert(natural[i] == i && natural[j] == j);
    }
    natural.lemma_multiset_has_no_duplicates();
    assert forall|x: usize| order.to_multiset().contains(x) implies order.to_multiset().count(x) == 1 by {
        assert(natural.to_multiset().contains(x));
    }
    order.lemma_multiset_has_no_duplicates_conv();
}

/// The converse: an order of `count` distinct indices below `count` that
/// holds each of them names every index below `count` exactly once.
pub proof fn lemma_order_from_cover(order: Seq<usize>, count: nat)
    requires
        count <= usize::MAX,
        order.no_duplicates(),
        forall|k: int| 0 <= k < order.len() ==> (#[trigger] order[k]) < count,
        forall|x: usize| x < count ==> order.contains(x),
    ensures
        each_index_once(order, count),
{
    let natural = index_range(count);
    broadcast use vstd::seq_lib::group_to_multiset_ensures;
    assert forall|i: int, j: int| 0 <= i < natural.len() && 0 <= j < natural.len() && i != j implies natural[i]
        != natural[j] by {
        assert(natural[i] == i && natural[j] == j);
    }
    natural.lemma_multiset_has_no_duplicates();
    order.lemma_multiset_has_no_duplicates();
    assert forall|x: usize| order.to_multiset().count(x) == natural.to_multiset().count(x) by {
        if order.contains(x) {
            let k = choose|k: int| 0 <= k < order.len() && order[k] == x;
            assert(natural[x as int] == x);
            assert(natural.contains(x));
        } else if natural.contains(x) {
            let j = choose|j: int| 0 <= j < natural.len() && natural[j] == x;
            assert(natural[j] == j);
        }
    }
    assert(order.to_multiset() =~= natural.to_multiset());
}

/// An order that is `count` long and holds every index below `count` names
/// every index below `count` exactly once: there is no room for anything
/// twice, nor for anything else.
pub proof fn lemma_order_from_full_cover(order: Seq<usize>, count: nat)
    requires
        count <= usize::MAX,
        order.len() == count,
        forall|x: usize| x < count ==> order.contains(x),
    ensures
        each_index_once(order, count),
{
    let natural = index_range(count);
    broadcast use vstd::seq_lib::seq_to_set_is_finite;
    assert forall|i: int, j: int| 0 <= i < natural.len() && 0 <= j < natural.len() && i != j implies natural[i]
        != natural[j] by {
        assert(natural[i] == i && natural[j] == j);
    }
    natural.unique_seq_to_set();
    assert forall|x: usize| natural.to_set().contains(x) implies order.to_set().contains(x) by {
        let j = choose|j: int| 0 <= j < natural.len() && natural[j] == x;
        assert(natural[j] == j);
        assert(order.contains(x));
    }
    assert(natural.to_set().subset_of(order.to_set()));
    vstd::set_lib::lemma_len_subset(natural.to_set(), order.to_set());
    order.lemma_cardinality_of_set();
    order.lemma_no_dup_set_cardinality();
    vstd::set_lib::lemma_subset_equality(natural.to_set(), order.to_set());
    assert forall|k: int| 0 <= k < order.len() implies (#[trigger] order[k]) < count by {
        assert(order.to_set().contains(order[k]));
        assert(natural.to_set().contains(order[k]));
        let j = choose|j: int| 0 <= j < natural.len() && natural[j] == order[k];
        assert(natural[j] == j);
    }
    lemma_order_from_cover(order, count);
}

} // verus!
