//! The network engine: weight matrix, relaxation limits and the stream that
//! orders the unit updates.

use crate::activation_function::ActivationFunction;
use crate::batch::{collect_in_order, in_order_of_tags, partition_states, WorkerTask};
use crate::network_domain::NetworkDomain;
use crate::random::{draw_seed, each_index_once, index_range, lemma_order_in_range, shuffle_indices};
use crate::relaxation::{
    count_unstable_units, is_settled, is_sweep, kernel_defined, lemma_relax_along_extends, observes,
    relax_along, relaxes_to, settled, sweep_budget, sweep_in_order,
};
use crate::scalar::Scalar;
use crate::weight_matrix::WeightMatrix;
use rand::rngs::StdRng;
use vstd::prelude::*;

verus! {

/// A Hopfield network.
#[derive(Debug)]
pub struct HopfieldNetwork {
    pub matrix: WeightMatrix,
    pub rng: StdRng,
    pub dimension: usize,
    pub force_symmetric: bool,
    pub force_zero_diagonal: bool,
    pub domain: NetworkDomain,
    pub activation_fn: ActivationFunction,
    pub maximum_relaxation_iterations: i32,
    pub maximum_relaxation_unstable_units: i32,
}

/// What cleaning makes of entry `(r, c)`: below the diagonal the entry that
/// mirrors it, where the matrix is to be symmetric; on the diagonal `0.0`,
/// where the diagonal is to be zero; else the entry as it was.
pub open spec fn cleaned_entry(
    matrix: WeightMatrix,
    zero_diagonal: bool,
    symmetric: bool,
    r: int,
    c: int,
) -> Scalar {
    if symmetric && r > c {
        matrix.entry(c, r)
    } else if zero_diagonal && r == c {
        Scalar { bits: 0 }
    } else {
        matrix.entry(r, c)
    }
}

impl HopfieldNetwork {
    /// The matrix is square and of the network's dimension, the dimension is
    /// positive, and the activation mapping is that of a concrete domain.
    pub open spec fn wf(&self) -> bool {
        &&& self.matrix.wf()
        &&& self.matrix.dim() == self.dimension
        &&& self.dimension > 0
        &&& self.domain.specified()
        &&& self.activation_fn == self.domain.activation()
    }

    /// The two networks differ at most in the state of their streams.
    pub open spec fn same_network(&self, other: &HopfieldNetwork) -> bool {
        &&& self.matrix == other.matrix
        &&& self.dimension == other.dimension
        &&& self.force_symmetric == other.force_symmetric
        &&& self.force_zero_diagonal == other.force_zero_diagonal
        &&& self.domain == other.domain
        &&& self.activation_fn == other.activation_fn
        &&& self.maximum_relaxation_iterations == other.maximum_relaxation_iterations
        &&& self.maximum_relaxation_unstable_units == other.maximum_relaxation_unstable_units
    }

    /// Cleans the matrix as the two flags ask: first the diagonal is set to
    /// `0.0`, then the part below the diagonal is filled from the part above.
    pub fn clean_matrix(&mut self)
        requires
            old(self).wf(),
        ensures
            final(self).wf(),
            final(self).dimension == old(self).dimension,
            final(self).force_symmetric == old(self).force_symmetric,
            final(self).force_zero_diagonal == old(self).force_zero_diagonal,
            final(self).domain == old(self).domain,
            final(self).activation_fn == old(self).activation_fn,
            final(self).maximum_relaxation_iterations == old(self).maximum_relaxation_iterations,
            final(self).maximum_relaxation_unstable_units == old(self).maximum_relaxation_unstable_units,
            forall|r: int, c: int|
                0 <= r < old(self).dimension && 0 <= c < old(self).dimension ==> final(self).matrix.entry(r, c)
                    == cleaned_entry(
                    old(self).matrix,
                    old(self).force_zero_diagonal,
                    old(self).force_symmetric,
                    r,
                    c,
                ),
            old(self).force_zero_diagonal ==> final(self).matrix.zero_diagonal(),
            old(self).force_symmetric ==> final(self).matrix.symmetric(),
    {
        if self.force_zero_diagonal {
            self.matrix.fill_diagonal(Scalar::zero());
        }
        if self.force_symmetric {
            self.matrix.fill_lower_triangle_with_upper_triangle();
        }
    }

    /// Every unit index once, in the natural order.
    pub fn get_unit_indices(&self) -> (indices: Vec<usize>)
        ensures
            indices@ == index_range(self.dimension as nat),
    {
        let mut indices: Vec<usize> = Vec::new();
        let mut i: usize = 0;
        while i < self.dimension
            invariant
                i <= self.dimension,
                indices.len() == i,
                forall|k: int| 0 <= k < i ==> indices[k] == k,
            decreases self.dimension - i,
        {
            indices.push(i);
            i += 1;
        }
        assert(indices@ =~= index_range(self.dimension as nat));
        indices
    }

    /// Draws the order in which the next sweep visits the units: every index
    /// exactly once. Advances the stream by one shuffle.
    pub fn sweep_order(&mut self) -> (order: Vec<usize>)
        ensures
            each_index_once(order@, old(self).dimension as nat),
            final(self).same_network(old(self)),
    {
        let mut order = self.get_unit_indices();
        shuffle_indices(&mut order, &mut self.rng);
        order
    }

    /// One asynchronous sweep in a freshly drawn order. Every unit is updated
    /// exactly once, and each update sees the updates made before it.
    pub fn update_state<K: Fn(&WeightMatrix, &Vec<Scalar>) -> Vec<Scalar>>(
        &mut self,
        state: Vec<Scalar>,
        product: &K,
    ) -> (updated: Vec<Scalar>)
        requires
            old(self).wf(),
            state.len() == old(self).dimension,
            kernel_defined(*product, old(self).matrix),
        ensures
            updated.len() == state.len(),
            is_sweep(*product, old(self).matrix, old(self).activation_fn, state, updated),
            final(self).same_network(old(self)),
    {
        let order = self.sweep_order();
        proof {
            lemma_order_in_range(order@, self.dimension as nat);
        }
        sweep_in_order(&self.matrix, self.activation_fn, &order, state, product)
    }

    /// Sweeps until a sweep leaves strictly fewer unstable units than the
    /// tolerance, or until the cap on the number of sweeps is reached. The
    /// state after the last sweep is returned either way.
    pub fn relax_state<
        K: Fn(&WeightMatrix, &Vec<Scalar>) -> Vec<Scalar>,
        E: Fn(&WeightMatrix, &Vec<Scalar>) -> Vec<Scalar>,
    >(&mut self, state: Vec<Scalar>, product: &K, energy: &E) -> (relaxed: Vec<Scalar>)
        requires
            old(self).wf(),
            state.len() == old(self).dimension,
            kernel_defined(*product, old(self).matrix),
            kernel_defined(*energy, old(self).matrix),
        ensures
            relaxed.len() == state.len(),
            relaxes_to(
                *product,
                *energy,
                old(self).matrix,
                old(self).activation_fn,
                old(self).maximum_relaxation_iterations,
                old(self).maximum_relaxation_unstable_units,
                state,
                relaxed,
            ),
            final(self).same_network(old(self)),
    {
        let ghost initial = state;
        let mut state = state;
        let ghost mut trace: Seq<Vec<Scalar>> = seq![state];
        let ghost mut counts: Seq<nat> = Seq::empty();
        let mut sweeps: i32 = 0;
        let mut stop = false;
        while sweeps < self.maximum_relaxation_iterations && !stop
            invariant
                0 <= sweeps,
                sweeps <= sweep_budget(self.maximum_relaxation_iterations),
                self.wf(),
                self.same_network(old(self)),
                state.len() == self.dimension,
                initial.len() == self.dimension,
                kernel_defined(*product, self.matrix),
                kernel_defined(*energy, self.matrix),
                counts.len() == sweeps,
                trace[0] == initial,
                trace.last() == state,
                relax_along(
                    *product,
                    *energy,
                    self.matrix,
                    self.activation_fn,
                    self.maximum_relaxation_unstable_units,
                    trace,
                    counts,
                ),
                stop ==> counts.len() > 0,
                counts.len() > 0 ==> stop == settled(
                    counts.last(),
                    self.maximum_relaxation_unstable_units,
                ),
            decreases self.maximum_relaxation_iterations - sweeps,
        {
            state = self.update_state(state, product);
            let energies = energy(&self.matrix, &state);
            let unstable = count_unstable_units(&energies);
            stop = is_settled(unstable, self.maximum_relaxation_unstable_units);
            proof {
                assert(observes(*energy, self.matrix, state, unstable as nat));
                lemma_relax_along_extends(
                    *product,
                    *energy,
                    self.matrix,
                    self.activation_fn,
                    self.maximum_relaxation_unstable_units,
                    trace,
                    counts,
                    state,
                    unstable as nat,
                );
                trace = trace.push(state);
                counts = counts.push(unstable as nat);
            }
            sweeps += 1;
        }
        state
    }

    /// `task` is what worker `t` of `threads` is given for the batch `states`:
    /// the settings of this network, a matrix with the entries of its matrix,
    /// the unit indices in natural order, and as its share the states whose
    /// index is `t` modulo `threads`, each tagged with its index, in the order
    /// of the batch.
    pub open spec fn task_of_worker(
        &self,
        states: Seq<Vec<Scalar>>,
        threads: nat,
        t: int,
        task: WorkerTask,
    ) -> bool {
        &&& task.wf()
        &&& task.matrix@ == self.matrix@
        &&& task.activation_fn == self.activation_fn
        &&& task.unit_indices@ == index_range(self.dimension as nat)
        &&& task.maximum_relaxation_iterations == self.maximum_relaxation_iterations
        &&& task.maximum_relaxation_unstable_units == self.maximum_relaxation_unstable_units
        &&& forall|p: int|
            0 <= p < task.state_collection.len() ==> {
                &&& (#[trigger] task.state_collection[p]).0 == p * threads + t
                &&& task.state_collection[p].0 < states.len()
                &&& task.state_collection[p].1 == states[p * threads + t]
            }
    }

    /// `tasks` are the tasks of the workers for the batch `states`: one for
    /// each worker, and the state at index `k` is in the share of worker
    /// `k % threads`, at place `k / threads`.
    pub open spec fn tasks_of_batch(
        &self,
        states: Seq<Vec<Scalar>>,
        threads: nat,
        tasks: Seq<WorkerTask>,
    ) -> bool {
        &&& tasks.len() == threads
        &&& forall|t: int| 0 <= t < threads ==> self.task_of_worker(states, threads, t, #[trigger] tasks[t])
        &&& forall|k: int|
            0 <= k < states.len() ==> k / (threads as int) < (#[trigger] tasks[k % (
            threads as int)]).state_collection.len()
    }

    /// Relaxes a batch of states with `threads` workers and returns the
    /// relaxed states in the order of the input.
    ///
    /// The batch is shared out to the workers in turn, every state tagged with
    /// its index. Every worker gets a matrix of its own and a seed drawn from
    /// the stream of the network, the seeds in the order of the workers and
    /// all of them before any worker starts. `run_workers` then has the tasks
    /// done, each by [`WorkerTask::run`], and hands back the tagged results in
    /// whatever order they came in. They are put back into the order of the
    /// input. Where `run_workers` does not hand back one result for each
    /// index of the batch, nothing is returned.
    pub fn concurrent_relax_state_collection<
        R: FnOnce(Vec<WorkerTask>) -> Vec<(usize, Vec<Scalar>)>,
    >(&mut self, state_collection: Vec<Vec<Scalar>>, threads: usize, run_workers: R) -> (relaxed: Option<
        Vec<Vec<Scalar>>,
    >)
        requires
            old(self).wf(),
            threads > 0 || state_collection.len() == 0,
            forall|k: int|
                0 <= k < state_collection.len() ==> (#[trigger] state_collection[k]).len() == old(
                    self,
                ).dimension,
            forall|tasks: Vec<WorkerTask>|
                old(self).tasks_of_batch(state_collection@, threads as nat, tasks@)
                    ==> #[trigger] run_workers.requires((tasks,)),
        ensures
            final(self).same_network(old(self)),
            exists|tasks: Vec<WorkerTask>, results: Vec<(usize, Vec<Scalar>)>| #[trigger]
                run_workers.ensures((tasks,), results) && old(self).tasks_of_batch(
                    state_collection@,
                    threads as nat,
                    tasks@,
                ) && relaxed.is_some() == (results.len() == state_collection.len() && each_index_once(
                    crate::batch::tags(results@),
                    results.len() as nat,
                )) && (relaxed.is_some() ==> in_order_of_tags(results@, relaxed)),
    {
        let total = state_collection.len();
        let ghost states = state_collection@;
        let shares = partition_states(state_collection, threads);
        let ghost all_shares = shares@;
        let mut tasks: Vec<WorkerTask> = Vec::new();
        for share in it: shares
            invariant
                it.seq() == all_shares,
                all_shares.len() == threads,
                self.wf(),
                self.same_network(old(self)),
                states.len() == total,
                forall|k: int| 0 <= k < states.len() ==> (#[trigger] states[k]).len() == self.dimension,
                forall|t: int, p: int|
                    0 <= t < threads && 0 <= p < all_shares[t].len() ==> {
                        &&& (#[trigger] all_shares[t][p]).0 == p * threads + t
                        &&& all_shares[t][p].0 < states.len()
                        &&& all_shares[t][p].1 == states[p * threads + t]
                    },
                tasks.len() == it.index(),
                forall|t: int|
                    0 <= t < tasks.len() ==> self.task_of_worker(states, threads as nat, t, #[trigger] tasks[t])
                        && tasks[t].state_collection == all_shares[t],
        {
            let ghost worker = it.index();
            let matrix = self.matrix.clone();
            let unit_indices = self.get_unit_indices();
            let rng_seed = draw_seed(&mut self.rng);
            let task = WorkerTask {
                matrix,
                activation_fn: self.activation_fn,
                unit_indices,
                maximum_relaxation_iterations: self.maximum_relaxation_iterations,
                maximum_relaxation_unstable_units: self.maximum_relaxation_unstable_units,
                rng_seed,
                state_collection: share,
            };
            proof {
                assert(task.matrix.dim() == self.matrix.dim()) by {
                    assert(task.matrix@.len() == self.matrix@.len());
                }
                assert forall|k: int| 0 <= k < task.state_collection.len() implies (
                #[trigger] task.state_collection[k]).1.len() == task.matrix.dim() by {
                    assert(all_shares[worker][k].1 == states[k * threads + worker]);
                    assert(states[all_shares[worker][k].0 as int].len() == self.dimension);
                }
                assert(self.task_of_worker(states, threads as nat, worker, task));
            }
            tasks.push(task);
        }
        proof {
            assert forall|k: int| 0 <= k < states.len() implies k / (threads as int) < (#[trigger] tasks@[k % (
            threads as int)]).state_collection.len() by {
                vstd::arithmetic::div_mod::lemma_mod_bound(k, threads as int);
                assert(tasks@[k % (threads as int)].state_collection == all_shares[k % (threads as int)]);
            }
            assert(self.tasks_of_batch(states, threads as nat, tasks@));
        }
        let ghost handed = tasks;
        let results = run_workers(tasks);
        let ghost returned = results;
        if results.len() != total {
            assert(run_workers.ensures((handed,), returned));
            return None;
        }
        let relaxed = collect_in_order(results);
        assert(run_workers.ensures((handed,), returned));
        relaxed
    }
}

/// The workers of a batch, taken together, hold every state of the batch
/// once: where as many results come back as the batch has states, and among
/// them one with the tag of every state of every task, the tags of the
/// results name every index of the batch exactly once.
pub proof fn lemma_results_of_tasks_complete(
    network: HopfieldNetwork,
    states: Seq<Vec<Scalar>>,
    threads: nat,
    tasks: Seq<WorkerTask>,
    results: Seq<(usize, Vec<Scalar>)>,
)
    requires
        states.len() <= usize::MAX,
        threads > 0 || states.len() == 0,
        network.tasks_of_batch(states, threads, tasks),
        results.len() == states.len(),
        forall|t: int, p: int|
            0 <= t < threads && 0 <= p < tasks[t].state_collection.len() ==> exists|i: int|
                0 <= i < results.len() && (#[trigger] results[i]).0 == (#[trigger] tasks[t].state_collection[p]).0,
    ensures
        each_index_once(crate::batch::tags(results), states.len()),
{
    let order = crate::batch::tags(results);
    assert forall|x: usize| x < states.len() implies order.contains(x) by {
        let w = threads as int;
        let t = x as int % w;
        let p = x as int / w;
        vstd::arithmetic::div_mod::lemma_mod_bound(x as int, w);
        vstd::arithmetic::div_mod::lemma_div_pos_is_pos(x as int, w);
        vstd::arithmetic::div_mod::lemma_fundamental_div_mod(x as int, w);
        assert(w * p == p * w) by (nonlinear_arith);
        assert(p < tasks[t].state_collection.len());
        assert(network.task_of_worker(states, threads, t, tasks[t]));
        assert(tasks[t].state_collection[p].0 == p * threads + t);
        let i = choose|i: int|
            0 <= i < results.len() && (#[trigger] results[i]).0 == tasks[t].state_collection[p].0;
        assert(order[i] == x);
    }
    crate::random::lemma_order_from_full_cover(order, states.len());
}

} // verus!
