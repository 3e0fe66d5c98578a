//! The generator of random states of a domain.

use crate::activation_function::ActivationFunction;
use crate::network_domain::NetworkDomain;
use crate::scalar::Scalar;
use rand::rngs::StdRng;
use vstd::prelude::*;

verus! {

/// Turns raw samples into states of its domain. The samples are drawn from
/// its stream, uniformly from the interval between its two bounds, the lower
/// one included and the upper one not.
#[derive(Debug)]
pub struct StateGenerator {
    pub rng: StdRng,
    pub random_lower_bound: Scalar,
    pub random_upper_bound: Scalar,
    pub rng_seed: u64,
    pub activation_function: ActivationFunction,
    pub dimension: usize,
    pub domain: NetworkDomain,
}

impl StateGenerator {
    /// The bounds are in order, the dimension is positive, and the activation
    /// mapping is that of a concrete domain.
    pub open spec fn wf(&self) -> bool {
        &&& self.random_lower_bound.lt(self.random_upper_bound)
        &&& self.dimension > 0
        &&& self.domain.specified()
        &&& self.activation_function == self.domain.activation()
    }

    /// The seed that the stream of this generator was started from.
    pub fn get_rng_seed(&self) -> (seed: u64)
        ensures
            seed == self.rng_seed,
    {
        self.rng_seed
    }

    /// The domain of the states.
    pub fn get_domain(&self) -> (domain: NetworkDomain)
        ensures
            domain == self.domain,
    {
        self.domain
    }

    /// Makes one state of the raw samples, one sample for each unit: the
    /// image of the samples under the activation mapping of the domain.
    pub fn next_state(&self, samples: Vec<Scalar>) -> (state: Vec<Scalar>)
        requires
            samples.len() == self.dimension,
        ensures
            state@ == self.activation_function.image(samples@),
            state.len() == self.dimension,
            forall|i: int| 0 <= i < state.len() ==> self.activation_function.admits(#[trigger] state[i]),
    {
        proof {
            crate::activation_function::lemma_activation_idempotent(self.activation_function, samples@);
        }
        self.activation_function.apply(samples)
    }

    /// Makes one state of each vector of raw samples, in their order.
    pub fn create_state_collection(&self, samples: Vec<Vec<Scalar>>) -> (states: Vec<Vec<Scalar>>)
        requires
            forall|k: int| 0 <= k < samples.len() ==> (#[trigger] samples[k]).len() == self.dimension,
        ensures
            states.len() == samples.len(),
            forall|k: int|
                0 <= k < samples.len() ==> (#[trigger] states[k])@ == self.activation_function.image(
                    samples[k]@,
                ),
    {
        let ghost raw = samples@;
        let mut states: Vec<Vec<Scalar>> = Vec::new();
        for sample in it: samples
            invariant
                it.seq() == raw,
                forall|k: int| 0 <= k < raw.len() ==> (#[trigger] raw[k]).len() == self.dimension,
                states.len() == it.index(),
                forall|k: int|
                    0 <= k < states.len() ==> (#[trigger] states[k])@ == self.activation_function.image(
                        raw[k]@,
                    ),
        {
            let state = self.next_state(sample);
            states.push(state);
        }
        states
    }
}

} // verus!
