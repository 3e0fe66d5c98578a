//! Relaxing a batch of states with several workers: how the batch is shared
//! out, what one worker does with its share, and how the results are put back
//! into the order of the input.

use crate::activation_function::ActivationFunction;
use crate::random::{each_index_once, lemma_order_from_cover, lemma_order_in_range, stream_from_seed};
use crate::relaxation::{kernel_defined, relax_with_stream, relaxes_to};
use crate::scalar::Scalar;
use crate::weight_matrix::WeightMatrix;
use vstd::prelude::*;

verus! {

/// Shares a batch out to the workers in turn: the state at input index `k`
/// goes to worker `k % threads`, tagged with `k`, and every worker holds its
/// states in the order of the input.
pub fn partition_states(state_collection: Vec<Vec<Scalar>>, threads: usize) -> (shares: Vec<
    Vec<(usize, Vec<Scalar>)>,
>)
    requires
        threads > 0 || state_collection.len() == 0,
    ensures
        shares.len() == threads,
        forall|t: int, p: int|
            0 <= t < threads && 0 <= p < shares[t].len() ==> {
                &&& (#[trigger] shares[t][p]).0 == p * threads + t
                &&& shares[t][p].0 < state_collection.len()
                &&& shares[t][p].1 == state_collection[p * threads + t]
            },
        forall|k: int|
            0 <= k < state_collection.len() ==> {
                &&& k / (threads as int) < (#[trigger] shares[k % (threads as int)]).len()
                &&& shares[k % (threads as int)][k / (threads as int)].0 == k
                &&& shares[k % (threads as int)][k / (threads as int)].1 == state_collection[k]
            },
{
    let mut shares: Vec<Vec<(usize, Vec<Scalar>)>> = Vec::new();
    let mut t: usize = 0;
    while t < threads
        invariant
            t <= threads,
            shares.len() == t,
            forall|w: int| 0 <= w < t ==> (#[trigger] shares[w]).len() == 0,
        decreases threads - t,
    {
        shares.push(Vec::new());
        t += 1;
    }
    let ghost states = state_collection@;
    let total = state_collection.len();
    let mut index: usize = 0;
    for state in it: state_collection
        invariant
            index == it.index(),
            it.seq() == states,
            states.len() == total,
            threads > 0 || states.len() == 0,
            shares.len() == threads,
            forall|w: int, p: int|
                0 <= w < threads && 0 <= p < shares[w].len() ==> {
                    &&& (#[trigger] shares[w][p]).0 == p * threads + w
                    &&& shares[w][p].0 < index
                    &&& shares[w][p].1 == states[p * threads + w]
                },
            forall|w: int| 0 <= w < threads ==> (#[trigger] shares[w]).len() * threads + w >= index,
    {
        let worker = index % threads;
        let ghost before = shares@;
        let ghost held = before[worker as int].len() as int;
        proof {
            assert(index < states.len());
            assert(state == states[index as int]);
            if held > 0 {
                assert(before[worker as int][held - 1].0 == (held - 1) * threads + worker);
            }
            lemma_next_place(index as int, threads as int, held);
        }
        shares[worker].push((index, state));
        proof {
            assert forall|w: int| 0 <= w < threads implies (#[trigger] shares[w]).len() * threads + w >= index
                + 1 by {
                if w != worker {
                    assert(shares[w] == before[w]);
                    lemma_other_place(index as int, threads as int, before[w].len() as int, w);
                } else {
                    assert(shares[w].len() == before[w].len() + 1);
                    assert((before[w].len() + 1) * threads == before[w].len() * threads + threads)
                        by (nonlinear_arith);
                }
            }
            assert forall|w: int, p: int| 0 <= w < threads && 0 <= p < shares[w].len() implies {
                &&& (#[trigger] shares[w][p]).0 == p * threads + w
                &&& shares[w][p].0 < index + 1
                &&& shares[w][p].1 == states[p * threads + w]
            } by {
                if w != worker {
                    assert(shares[w] == before[w]);
                    assert(shares[w][p] == before[w][p]);
                } else if p < before[w].len() {
                    assert(shares[w][p] == before[w][p]);
                } else {
                    assert(p == held);
                    assert(shares[w][p] == (index, state));
                }
            }
        }
        index += 1;
    }
    proof {
        assert(index == states.len());
        assert forall|k: int| 0 <= k < states.len() implies {
            &&& k / (threads as int) < (#[trigger] shares[k % (threads as int)]).len()
            &&& shares[k % (threads as int)][k / (threads as int)].0 == k
            &&& shares[k % (threads as int)][k / (threads as int)].1 == states[k]
        } by {
            let w = threads as int;
            vstd::arithmetic::div_mod::lemma_mod_bound(k, w);
            lemma_place_is_held(k, states.len() as int, w, shares[k % w].len() as int);
            vstd::arithmetic::div_mod::lemma_fundamental_div_mod(k, w);
            assert(w * (k / w) == (k / w) * w) by (nonlinear_arith);
            vstd::arithmetic::div_mod::lemma_div_pos_is_pos(k, w);
            assert(shares[k % w][k / w].0 == (k / w) * w + k % w);
        }
    }
    shares
}

/// Where the worker `index % threads` holds `held` states and the next free
/// place of every worker lies at or after `index`, while all places held lie
/// before it, the state `index` comes to stand at place `index / threads`.
proof fn lemma_next_place(index: int, threads: int, held: int)
    requires
        0 <= index,
        0 < threads,
        0 <= held,
        held * threads + index % threads >= index,
        held > 0 ==> (held - 1) * threads + index % threads < index,
    ensures
        held * threads + index % threads == index,
{
    vstd::arithmetic::div_mod::lemma_fundamental_div_mod(index, threads);
    let q = index / threads;
    assert(index == threads * q + index % threads);
    assert(threads * q == q * threads) by (nonlinear_arith);
    if held > q {
        assert((held - 1) * threads >= q * threads) by (nonlinear_arith)
            requires
                held - 1 >= q,
                threads > 0,
        ;
    }
    if held < q {
        assert(held * threads + threads <= q * threads) by (nonlinear_arith)
            requires
                held + 1 <= q,
                threads > 0,
        ;
        vstd::arithmetic::div_mod::lemma_mod_bound(index, threads);
    }
}

/// The next free place of a worker other than `index % threads` does not lie
/// at `index`.
proof fn lemma_other_place(index: int, threads: int, held: int, worker: int)
    requires
        0 <= index,
        0 < threads,
        0 <= held,
        0 <= worker < threads,
        worker != index % threads,
        held * threads + worker >= index,
    ensures
        held * threads + worker >= index + 1,
{
    if held * threads + worker == index {
        vstd::arithmetic::div_mod::lemma_fundamental_div_mod_converse(index, threads, held, worker);
    }
}

/// A worker whose next free place lies at or after the end of the batch holds
/// the state `k` of the batch at place `k / threads`.
proof fn lemma_place_is_held(k: int, total: int, threads: int, held: int)
    requires
        0 <= k < total,
        0 < threads,
        0 <= held,
        held * threads + k % threads >= total,
    ensures
        k / threads < held,
{
    vstd::arithmetic::div_mod::lemma_fundamental_div_mod(k, threads);
    let q = k / threads;
    assert(threads * q == q * threads) by (nonlinear_arith);
    if held <= q {
        assert(held * threads <= q * threads) by (nonlinear_arith)
            requires
                held <= q,
                threads > 0,
        ;
    }
}

/// What one worker of a batch does: it starts a stream of its own from its
/// seed and relaxes the states of its share one after the other, each as a
/// sequential relaxation does. The results keep the tags and the order of the
/// share.
pub fn concurrent_relax_thread_fn<
    K: Fn(&WeightMatrix, &Vec<Scalar>) -> Vec<Scalar>,
    E: Fn(&WeightMatrix, &Vec<Scalar>) -> Vec<Scalar>,
>(
    matrix: WeightMatrix,
    activation_fn: ActivationFunction,
    unit_indices: Vec<usize>,
    maximum_relaxation_iterations: i32,
    maximum_relaxation_unstable_units: i32,
    rng_seed: u64,
    state_collection: Vec<(usize, Vec<Scalar>)>,
    product: &K,
    energy: &E,
) -> (results: Vec<(usize, Vec<Scalar>)>)
    requires
        matrix.wf(),
        each_index_once(unit_indices@, matrix.dim()),
        forall|k: int| 0 <= k < state_collection.len() ==> (#[trigger] state_collection[k]).1.len() == matrix.dim(),
        kernel_defined(*product, matrix),
        kernel_defined(*energy, matrix),
    ensures
        results.len() == state_collection.len(),
        forall|k: int|
            0 <= k < state_collection.len() ==> {
                &&& (#[trigger] results[k]).0 == state_collection[k].0
                &&& results[k].1.len() == matrix.dim()
                &&& relaxes_to(
                    *product,
                    *energy,
                    matrix,
                    activation_fn,
                    maximum_relaxation_iterations,
                    maximum_relaxation_unstable_units,
                    state_collection[k].1,
                    results[k].1,
                )
            },
{
    let mut rng = stream_from_seed(rng_seed);
    let mut unit_indices = unit_indices;
    let mut results: Vec<(usize, Vec<Scalar>)> = Vec::new();
    let ghost share = state_collection@;
    for tagged in it: state_collection
        invariant
            it.seq() == share,
            matrix.wf(),
            each_index_once(unit_indices@, matrix.dim()),
            forall|k: int| 0 <= k < share.len() ==> (#[trigger] share[k]).1.len() == matrix.dim(),
            kernel_defined(*product, matrix),
            kernel_defined(*energy, matrix),
            results.len() == it.index(),
            forall|k: int|
                0 <= k < results.len() ==> {
                    &&& (#[trigger] results[k]).0 == share[k].0
                    &&& results[k].1.len() == matrix.dim()
                    &&& relaxes_to(
                        *product,
                        *energy,
                        matrix,
                        activation_fn,
                        maximum_relaxation_iterations,
                        maximum_relaxation_unstable_units,
                        share[k].1,
                        results[k].1,
                    )
                },
    {
        let (state_index, state) = tagged;
        let relaxed = relax_with_stream(
            &matrix,
            activation_fn,
            &mut unit_indices,
            maximum_relaxation_iterations,
            maximum_relaxation_unstable_units,
            &mut rng,
            state,
            product,
            energy,
        );
        results.push((state_index, relaxed));
    }
    results
}

/// What one worker of a batch is given: a matrix of its own, the limits of
/// the relaxation, the seed of its stream and its share of the states.
#[derive(Debug)]
pub struct WorkerTask {
    pub matrix: WeightMatrix,
    pub activation_fn: ActivationFunction,
    pub unit_indices: Vec<usize>,
    pub maximum_relaxation_iterations: i32,
    pub maximum_relaxation_unstable_units: i32,
    pub rng_seed: u64,
    pub state_collection: Vec<(usize, Vec<Scalar>)>,
}

impl WorkerTask {
    /// The matrix is square, the indices name every unit once, and every
    /// state of the share has one component for each unit.
    pub open spec fn wf(&self) -> bool {
        &&& self.matrix.wf()
        &&& each_index_once(self.unit_indices@, self.matrix.dim())
        &&& forall|k: int|
            0 <= k < self.state_collection.len() ==> (#[trigger] self.state_collection[k]).1.len()
                == self.matrix.dim()
    }

    /// Does the work of the task with the given kernels.
    pub fn run<
        K: Fn(&WeightMatrix, &Vec<Scalar>) -> Vec<Scalar>,
        E: Fn(&WeightMatrix, &Vec<Scalar>) -> Vec<Scalar>,
    >(self, product: &K, energy: &E) -> (results: Vec<(usize, Vec<Scalar>)>)
        requires
            self.wf(),
            kernel_defined(*product, self.matrix),
            kernel_defined(*energy, self.matrix),
        ensures
            results.len() == self.state_collection.len(),
            forall|k: int|
                0 <= k < self.state_collection.len() ==> {
                    &&& (#[trigger] results[k]).0 == self.state_collection[k].0
                    &&& results[k].1.len() == self.matrix.dim()
                    &&& relaxes_to(
                        *product,
                        *energy,
                        self.matrix,
                        self.activation_fn,
                        self.maximum_relaxation_iterations,
                        self.maximum_relaxation_unstable_units,
                        self.state_collection[k].1,
                        results[k].1,
                    )
                },
    {
        concurrent_relax_thread_fn(
            self.matrix,
            self.activation_fn,
            self.unit_indices,
            self.maximum_relaxation_iterations,
            self.maximum_relaxation_unstable_units,
            self.rng_seed,
            self.state_collection,
            product,
            energy,
        )
    }
}

/// The tags of tagged states, in their order.
pub open spec fn tags(results: Seq<(usize, Vec<Scalar>)>) -> Seq<usize> {
    Seq::new(results.len(), |i: int| results[i].0)
}

/// `ordered` is what putting `results` into the order of their tags gives:
/// something exactly where the tags name every index below the number of
/// results once, and then every state at the index that its tag names.
pub open spec fn in_order_of_tags(
    results: Seq<(usize, Vec<Scalar>)>,
    ordered: Option<Vec<Vec<Scalar>>>,
) -> bool {
    &&& ordered.is_some() == each_index_once(tags(results), results.len())
    &&& ordered matches Some(states) ==> {
        &&& states.len() == results.len()
        &&& forall|i: int| 0 <= i < results.len() ==> states[(#[trigger] results[i]).0 as int] == results[i].1
    }
}

/// Puts the results of a batch back into the order of the input: the state
/// tagged `k` comes to stand at index `k`. This can be done exactly where the
/// tags name every index below the number of results once; otherwise nothing
/// is returned.
pub fn collect_in_order(results: Vec<(usize, Vec<Scalar>)>) -> (ordered: Option<Vec<Vec<Scalar>>>)
    ensures
        in_order_of_tags(results@, ordered),
{
    let total = results.len();
    let ghost all = results@;
    let mut slots: Vec<Option<Vec<Scalar>>> = Vec::new();
    let mut k: usize = 0;
    while k < total
        invariant
            k <= total,
            slots.len() == k,
            forall|j: int| 0 <= j < k ==> (#[trigger] slots[j]).is_none(),
        decreases total - k,
    {
        slots.push(None);
        k += 1;
    }
    for tagged in it: results
        invariant
            it.seq() == all,
            all.len() == total,
            slots.len() == total,
            forall|i: int|
                0 <= i < it.index() ==> (#[trigger] all[i]).0 < total && slots[all[i].0 as int] == Some(
                    all[i].1,
                ),
            forall|j: int|
                0 <= j < total && (#[trigger] slots[j]).is_some() ==> exists|i: int|
                    0 <= i < it.index() && (#[trigger] all[i]).0 == j,
            forall|i: int, j: int|
                0 <= i < j < it.index() ==> (#[trigger] all[i]).0 != (#[trigger] all[j]).0,
    {
        let ghost at = it.index();
        let (tag, state) = tagged;
        assert(all[at] == (tag, state));
        if tag >= total {
            proof {
                if each_index_once(tags(all), total as nat) {
                    lemma_order_in_range(tags(all), total as nat);
                    assert(tags(all)[at] < total);
                }
            }
            return None;
        }
        if slots[tag].is_some() {
            proof {
                let first = choose|i: int| 0 <= i < at && (#[trigger] all[i]).0 == tag;
                if each_index_once(tags(all), total as nat) {
                    lemma_order_in_range(tags(all), total as nat);
                    assert(tags(all)[first] == tags(all)[at]);
                }
            }
            return None;
        }
        let ghost before = slots@;
        slots.set(tag, Some(state));
        proof {
            assert forall|i: int| 0 <= i < at + 1 implies (#[trigger] all[i]).0 < total && slots[all[i].0 as int]
                == Some(all[i].1) by {
                if i < at {
                    assert(before[all[i].0 as int] == Some(all[i].1));
                }
            }
            assert forall|j: int| 0 <= j < total && (#[trigger] slots[j]).is_some() implies exists|i: int|
                0 <= i < at + 1 && (#[trigger] all[i]).0 == j by {
                if j == tag {
                    assert(all[at].0 == j);
                } else {
                    assert(before[j].is_some());
                    let i = choose|i: int| 0 <= i < at && (#[trigger] all[i]).0 == j;
                    assert(all[i].0 == j);
                }
            }
            assert forall|i: int, j: int| 0 <= i < j < at + 1 implies (#[trigger] all[i]).0 != (
            #[trigger] all[j]).0 by {
                if j == at {
                    assert(before[all[i].0 as int] == Some(all[i].1));
                }
            }
        }
    }
    let ghost filled = slots@;
    let mut ordered: Vec<Vec<Scalar>> = Vec::new();
    for slot in it: slots
        invariant
            it.seq() == filled,
            filled.len() == total,
            all == results@,
            all.len() == total,
            ordered.len() == it.index(),
            forall|j: int| 0 <= j < ordered.len() ==> filled[j] == Some(#[trigger] ordered[j]),
            forall|i: int|
                0 <= i < total ==> (#[trigger] all[i]).0 < total && filled[all[i].0 as int] == Some(all[i].1),
            forall|j: int|
                0 <= j < total && (#[trigger] filled[j]).is_some() ==> exists|i: int|
                    0 <= i < total && (#[trigger] all[i]).0 == j,
    {
        match slot {
            Some(state) => {
                ordered.push(state);
            },
            None => {
                proof {
                    let missing = it.index();
                    assert(filled[missing].is_none());
                    if each_index_once(tags(all), total as nat) {
                        lemma_order_in_range(tags(all), total as nat);
                        assert(tags(all).contains(missing as usize));
                        let i = choose|i: int| 0 <= i < tags(all).len() && tags(all)[i] == missing as usize;
                        assert(all[i].0 == missing);
                        assert(filled[all[i].0 as int] == Some(all[i].1));
                    }
                }
                return None;
            },
        }
    }
    proof {
        let order = tags(all);
        assert forall|x: usize| x < total implies order.contains(x) by {
            assert(filled[x as int] == Some(ordered[x as int]));
            let i = choose|i: int| 0 <= i < total && (#[trigger] all[i]).0 == x as int;
            assert(order[i] == x);
        }
        assert forall|i: int, j: int| 0 <= i < order.len() && 0 <= j < order.len() && i != j implies order[i]
            != order[j] by {
            assert(all[i].0 == order[i] && all[j].0 == order[j]);
            if i < j {
                assert(all[i].0 != all[j].0);
            } else {
                assert(all[j].0 != all[i].0);
            }
        }
        assert forall|k: int| 0 <= k < order.len() implies (#[trigger] order[k]) < total by {
            assert(all[k].0 < total);
        }
        lemma_order_from_cover(order, total as nat);
        assert forall|i: int| 0 <= i < total implies ordered[(#[trigger] all[i]).0 as int] == all[i].1 by {
            assert(filled[all[i].0 as int] == Some(all[i].1));
        }
    }
    Some(ordered)
}

/// A batch comes back in the order of the input, in whatever order the
/// results came in: where the tags of the results name every input index
/// once, every result stands in some relation to the input state that its
/// tag names, and `ordered` is what putting the results into the order of
/// their tags gives, `ordered` holds as many states as the input, and the
/// state at every index stands in that relation to the input state at that
/// index.
pub proof fn lemma_batch_in_input_order(
    states: Seq<Vec<Scalar>>,
    results: Seq<(usize, Vec<Scalar>)>,
    ordered: Option<Vec<Vec<Scalar>>>,
    relaxed_from: spec_fn(Vec<Scalar>, Vec<Scalar>) -> bool,
)
    requires
        states.len() <= usize::MAX,
        results.len() == states.len(),
        each_index_once(tags(results), states.len()),
        in_order_of_tags(results, ordered),
        forall|i: int|
            0 <= i < results.len() ==> relaxed_from(states[(#[trigger] results[i]).0 as int], results[i].1),
    ensures
        ordered.is_some(),
        ordered.unwrap().len() == states.len(),
        forall|k: int| 0 <= k < states.len() ==> relaxed_from(states[k], #[trigger] ordered.unwrap()[k]),
{
    let order = tags(results);
    lemma_order_in_range(order, states.len());
    assert forall|k: int| 0 <= k < states.len() implies relaxed_from(
        states[k],
        #[trigger] ordered.unwrap()[k],
    ) by {
        assert(order.contains(k as usize));
        let i = choose|i: int| 0 <= i < order.len() && order[i] == k as usize;
        assert(results[i].0 == k);
    }
}

} // verus!
