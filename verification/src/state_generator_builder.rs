//! The builder of a state generator.

use crate::network_domain::NetworkDomain;
use crate::random::stream_from_seed;
use crate::scalar::{Scalar, MINUS_ONE_BITS, ONE_BITS};
use crate::state_generator::StateGenerator;
use vstd::prelude::*;

verus! {

/// Collects the parameters of a state generator. The dimension and the domain
/// have to be set before a generator can be built.
#[derive(Debug)]
pub struct StateGeneratorBuilder {
    pub random_lower_bound: Scalar,
    pub random_upper_bound: Scalar,
    pub generator_seed: u64,
    pub dimension: usize,
    pub domain: NetworkDomain,
}

/// The seed of a generator: the one that was asked for, or, where that is 0,
/// the fresh one.
pub open spec fn chosen_seed(generator_seed: u64, fresh_seed: u64) -> u64 {
    if generator_seed != 0 {
        generator_seed
    } else {
        fresh_seed
    }
}

impl StateGeneratorBuilder {
    /// A builder with the default values: samples from `-1.0` up to `1.0` and
    /// no seed. Dimension and domain are not set yet.
    pub fn new_state_generator_builder() -> (builder: Self)
        ensures
            builder == (StateGeneratorBuilder {
                random_lower_bound: Scalar { bits: MINUS_ONE_BITS },
                random_upper_bound: Scalar { bits: ONE_BITS },
                generator_seed: 0,
                dimension: 0,
                domain: NetworkDomain::Unspecified,
            }),
    {
        Self {
            random_lower_bound: Scalar::minus_one(),
            random_upper_bound: Scalar::one(),
            generator_seed: 0,
            dimension: 0,
            domain: NetworkDomain::Unspecified,
        }
    }

    /// The lower bound of the samples, which is included. It has to be
    /// strictly less than the upper bound.
    pub fn set_random_lower_bound(self, random_lower_bound: Scalar) -> (builder: Self)
        ensures
            builder == (StateGeneratorBuilder { random_lower_bound, ..self }),
    {
        let mut builder = self;
        builder.random_lower_bound = random_lower_bound;
        builder
    }

    /// The upper bound of the samples, which is not included.
    pub fn set_random_upper_bound(self, random_upper_bound: Scalar) -> (builder: Self)
        ensures
            builder == (StateGeneratorBuilder { random_upper_bound, ..self }),
    {
        let mut builder = self;
        builder.random_upper_bound = random_upper_bound;
        builder
    }

    /// The seed of the generator's stream. With 0 a fresh seed is taken.
    pub fn set_generator_seed(self, generator_seed: u64) -> (builder: Self)
        ensures
            builder == (StateGeneratorBuilder { generator_seed, ..self }),
    {
        let mut builder = self;
        builder.generator_seed = generator_seed;
        builder
    }

    /// The length of the states.
    pub fn set_dimension(self, dimension: usize) -> (builder: Self)
        ensures
            builder == (StateGeneratorBuilder { dimension, ..self }),
    {
        let mut builder = self;
        builder.dimension = dimension;
        builder
    }

    /// The domain of the states.
    pub fn set_domain(self, domain: NetworkDomain) -> (builder: Self)
        ensures
            builder == (StateGeneratorBuilder { domain, ..self }),
    {
        let mut builder = self;
        builder.domain = domain;
        builder
    }

    /// A generator can be built: the lower bound is strictly less than the
    /// upper bound, the dimension is positive and the domain is a concrete one.
    pub open spec fn valid(&self) -> bool {
        &&& self.random_lower_bound.lt(self.random_upper_bound)
        &&& self.dimension > 0
        &&& self.domain.specified()
    }

    /// Whether a generator can be built.
    pub fn check_valid(&self) -> (b: bool)
        ensures
            b == self.valid(),
    {
        self.random_lower_bound.less_than(self.random_upper_bound) && self.dimension > 0
            && self.domain.is_specified()
    }

    /// Builds a generator and leaves the builder as it is. The stream of the
    /// generator is started from the seed that was set, or, where that is 0,
    /// from `fresh_seed`; the generator reports the seed it took.
    pub fn build(&self, fresh_seed: u64) -> (generator: StateGenerator)
        requires
            self.valid(),
        ensures
            generator.wf(),
            generator.rng_seed == chosen_seed(self.generator_seed, fresh_seed),
            generator.random_lower_bound == self.random_lower_bound,
            generator.random_upper_bound == self.random_upper_bound,
            generator.dimension == self.dimension,
            generator.domain == self.domain,
            generator.activation_function == self.domain.activation(),
    {
        let gen_seed = if self.generator_seed != 0 {
            self.generator_seed
        } else {
            fresh_seed
        };
        let gen_rng = stream_from_seed(gen_seed);
        StateGenerator {
            rng: gen_rng,
            random_lower_bound: self.random_lower_bound,
            random_upper_bound: self.random_upper_bound,
            rng_seed: gen_seed,
            activation_function: self.domain.activation_fn(),
            dimension: self.dimension,
            domain: self.domain,
        }
    }
}

} // verus!
