//! The order of contraction: cost model, search strategies and the plan.

pub mod branch_bound;
pub mod cost;
pub mod cost_order;
pub mod dynamic;
pub mod greedy;
pub mod path;
pub mod plan;
pub mod search;

pub use branch_bound::branch_bound_path;
pub use cost::{ContractionCost, CostModel};
pub use dynamic::optimal_path;
pub use greedy::greedy_path;
pub use path::{ContractionPath, ContractionStep};
pub use plan::{create_plan, ContractionStrategy, ExecutionPlan, ExecutionStep, ReductionOp};
