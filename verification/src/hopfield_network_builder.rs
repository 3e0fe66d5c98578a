//! The builder of a network.

use crate::hopfield_network::HopfieldNetwork;
use crate::network_domain::NetworkDomain;
use crate::scalar::Scalar;
use crate::weight_matrix::WeightMatrix;
use rand::rngs::StdRng;
use vstd::prelude::*;

verus! {

/// Collects the parameters of a network. The dimension and the domain have
/// to be set before a network can be built.
pub struct HopfieldNetworkBuilder {
    pub rand_matrix_init: bool,
    pub dimension: usize,
    pub force_symmetric: bool,
    pub force_zero_diagonal: bool,
    pub domain: NetworkDomain,
    pub maximum_relaxation_unstable_units: i32,
    pub maximum_relaxation_iterations: i32,
}

impl HopfieldNetworkBuilder {
    /// A builder with the default values: a zero matrix, both cleaning flags
    /// set, a tolerance of 0 unstable units and a cap of 100 sweeps. Dimension
    /// and domain are not set yet.
    pub fn new_hopfield_network_builder() -> (builder: Self)
        ensures
            builder == (HopfieldNetworkBuilder {
                rand_matrix_init: false,
                dimension: 0,
                force_symmetric: true,
                force_zero_diagonal: true,
                domain: NetworkDomain::Unspecified,
                maximum_relaxation_unstable_units: 0,
                maximum_relaxation_iterations: 100,
            }),
    {
        Self {
            rand_matrix_init: false,
            dimension: 0,
            force_symmetric: true,
            force_zero_diagonal: true,
            domain: NetworkDomain::Unspecified,
            maximum_relaxation_unstable_units: 0,
            maximum_relaxation_iterations: 100,
        }
    }

    /// Whether the matrix starts from random values rather than from zeros.
    pub fn set_rand_matrix_init(self, rand_matrix_init: bool) -> (builder: Self)
        ensures
            builder == (HopfieldNetworkBuilder { rand_matrix_init, ..self }),
    {
        let mut builder = self;
        builder.rand_matrix_init = rand_matrix_init;
        builder
    }

    /// The number of units.
    pub fn set_network_dimension(self, dimension: usize) -> (builder: Self)
        ensures
            builder == (HopfieldNetworkBuilder { dimension, ..self }),
    {
        let mut builder = self;
        builder.dimension = dimension;
        builder
    }

    /// Whether cleaning makes the matrix symmetric.
    pub fn set_force_symmetrix(self, force_symmetric_flag: bool) -> (builder: Self)
        ensures
            builder == (HopfieldNetworkBuilder { force_symmetric: force_symmetric_flag, ..self }),
    {
        let mut builder = self;
        builder.force_symmetric = force_symmetric_flag;
        builder
    }

    /// Whether cleaning sets the diagonal to zero.
    pub fn set_zero_diagonal_flag(self, force_zero_diagonal_flag: bool) -> (builder: Self)
        ensures
            builder == (HopfieldNetworkBuilder { force_zero_diagonal: force_zero_diagonal_flag, ..self }),
    {
        let mut builder = self;
        builder.force_zero_diagonal = force_zero_diagonal_flag;
        builder
    }

    /// The domain of the unit values.
    pub fn set_network_domain(self, domain: NetworkDomain) -> (builder: Self)
        ensures
            builder == (HopfieldNetworkBuilder { domain, ..self }),
    {
        let mut builder = self;
        builder.domain = domain;
        builder
    }

    /// The tolerance of a relaxation: it stops once strictly fewer units than
    /// this are unstable.
    pub fn set_maximum_relaxation_unstable_units(self, maximum_relaxation_unstable_units: i32) -> (builder:
        Self)
        ensures
            builder == (HopfieldNetworkBuilder { maximum_relaxation_unstable_units, ..self }),
    {
        let mut builder = self;
        builder.maximum_relaxation_unstable_units = maximum_relaxation_unstable_units;
        builder
    }

    /// The cap on the number of sweeps of a relaxation.
    pub fn set_maximum_relaxation_iterations(self, maximum_relaxation_iterations: i32) -> (builder: Self)
        ensures
            builder == (HopfieldNetworkBuilder { maximum_relaxation_iterations, ..self }),
    {
        let mut builder = self;
        builder.maximum_relaxation_iterations = maximum_relaxation_iterations;
        builder
    }

    /// A network can be built: the dimension is positive and the domain is a
    /// concrete one.
    pub open spec fn valid(&self) -> bool {
        self.dimension > 0 && self.domain.specified()
    }

    pub fn is_valid(&self) -> (b: bool)
        ensures
            b == self.valid(),
    {
        self.dimension > 0 && self.domain.is_specified()
    }

    /// Builds the network. It takes the stream that will order the unit
    /// updates. Where the builder asks for a random matrix, `samples` holds
    /// its entries column after column; otherwise the matrix is zero and
    /// `samples` is not read. The matrix is not cleaned.
    pub fn build(self, rng: StdRng, samples: Vec<Scalar>) -> (network: HopfieldNetwork)
        requires
            self.valid(),
            self.rand_matrix_init ==> samples.len() == self.dimension * self.dimension,
        ensures
            network.wf(),
            network.dimension == self.dimension,
            network.force_symmetric == self.force_symmetric,
            network.force_zero_diagonal == self.force_zero_diagonal,
            network.domain == self.domain,
            network.activation_fn == self.domain.activation(),
            network.maximum_relaxation_iterations == self.maximum_relaxation_iterations,
            network.maximum_relaxation_unstable_units == self.maximum_relaxation_unstable_units,
            network.rng == rng,
            forall|i: int, j: int|
                0 <= i < self.dimension && 0 <= j < self.dimension ==> #[trigger] network.matrix.entry(i, j)
                    == (if self.rand_matrix_init {
                    samples[j * self.dimension + i]
                } else {
                    Scalar { bits: 0 }
                }),
    {
        let matrix = if self.rand_matrix_init {
            WeightMatrix::from_column_major(&samples, self.dimension)
        } else {
            WeightMatrix::zeros(self.dimension)
        };
        HopfieldNetwork {
            matrix,
            rng,
            dimension: self.dimension,
            force_symmetric: self.force_symmetric,
            force_zero_diagonal: self.force_zero_diagonal,
            domain: self.domain,
            activation_fn: self.domain.activation_fn(),
            maximum_relaxation_iterations: self.maximum_relaxation_iterations,
            maximum_relaxation_unstable_units: self.maximum_relaxation_unstable_units,
        }
    }
}

} // verus!
