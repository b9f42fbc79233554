//! Options of an einsum call.

use crate::optimization::plan::ContractionStrategy;
use vstd::prelude::*;

verus! {

/// Options of an einsum call.
#[derive(Debug, Clone)]
pub struct EinsumConfig {
    /// How the order of contraction is found.
    pub strategy: ContractionStrategy,
    /// Whether matrix products may use tensor cores.
    pub use_tensor_cores: bool,
    /// Whether matrix products are tuned automatically.
    pub autotune: bool,
    /// Whether shapes are validated before execution.
    pub validate_shapes: bool,
}

impl Default for EinsumConfig {
    fn default() -> (r: Self)
        ensures
            r.strategy == ContractionStrategy::Auto,
            r.use_tensor_cores,
            r.autotune,
            r.validate_shapes,
    {
        EinsumConfig { strategy: ContractionStrategy::Auto, use_tensor_cores: true, autotune: true, validate_shapes: true }
    }
}

impl EinsumConfig {
    /// The default options.
    pub fn new() -> (r: Self)
        ensures
            r.strategy == ContractionStrategy::Auto,
            r.use_tensor_cores,
            r.autotune,
            r.validate_shapes,
    {
        EinsumConfig { strategy: ContractionStrategy::Auto, use_tensor_cores: true, autotune: true, validate_shapes: true }
    }

    pub fn with_strategy(self, strategy: ContractionStrategy) -> (r: Self)
        ensures
            r.strategy == strategy,
            r.use_tensor_cores == self.use_tensor_cores,
            r.autotune == self.autotune,
            r.validate_shapes == self.validate_shapes,
    {
        EinsumConfig {
            strategy,
            use_tensor_cores: self.use_tensor_cores,
            autotune: self.autotune,
            validate_shapes: self.validate_shapes,
        }
    }

    pub fn with_tensor_cores(self, enabled: bool) -> (r: Self)
        ensures
            r.strategy == self.strategy,
            r.use_tensor_cores == enabled,
            r.autotune == self.autotune,
            r.validate_shapes == self.validate_shapes,
    {
        EinsumConfig {
            strategy: self.strategy,
            use_tensor_cores: enabled,
            autotune: self.autotune,
            validate_shapes: self.validate_shapes,
        }
    }

    pub fn with_autotune(self, enabled: bool) -> (r: Self)
        ensures
            r.strategy == self.strategy,
            r.use_tensor_cores == self.use_tensor_cores,
            r.autotune == enabled,
            r.validate_shapes == self.validate_shapes,
    {
        EinsumConfig {
            strategy: self.strategy,
            use_tensor_cores: self.use_tensor_cores,
            autotune: enabled,
            validate_shapes: self.validate_shapes,
        }
    }

    pub fn with_validation(self, enabled: bool) -> (r: Self)
        ensures
            r.strategy == self.strategy,
            r.use_tensor_cores == self.use_tensor_cores,
            r.autotune == self.autotune,
            r.validate_shapes == enabled,
    {
        EinsumConfig {
            strategy: self.strategy,
            use_tensor_cores: self.use_tensor_cores,
            autotune: self.autotune,
            validate_shapes: enabled,
        }
    }

    /// Options for speed: the greedy strategy, and no validation.
    pub fn fast() -> (r: Self)
        ensures
            r.strategy == ContractionStrategy::Greedy,
            r.use_tensor_cores,
            !r.autotune,
            !r.validate_shapes,
    {
        EinsumConfig {
            strategy: ContractionStrategy::Greedy,
            use_tensor_cores: true,
            autotune: false,
            validate_shapes: false,
        }
    }

    /// Options for safety: the optimal strategy, and validation.
    pub fn safe() -> (r: Self)
        ensures
            r.strategy == ContractionStrategy::Optimal,
            r.use_tensor_cores,
            r.autotune,
            r.validate_shapes,
    {
        EinsumConfig {
            strategy: ContractionStrategy::Optimal,
            use_tensor_cores: true,
            autotune: true,
            validate_shapes: true,
        }
    }
}

} // verus!
