//! Runtime library for a state-based controller: the value and state model
//! the runners share, the lifecycle enums they exchange, the key sets they
//! read, state initialisation, and the decision logic of each runner tick.

pub mod value;
pub mod text;
pub mod state;
pub mod predicate;
pub mod transition;
pub mod operation;
pub mod sop;
pub mod runner_states;
pub mod ids;
pub mod goals;
pub mod runner_keys;
pub mod state_init;
pub mod clock;
pub mod tick;
pub mod render;
pub mod process;
pub mod plan_runner;
pub mod sop_multi;
pub mod goal_tick;
pub mod sop_runner;
pub mod auto_runner;
pub mod main_runner;
pub mod sop_driver;
pub mod auto_operation_driver;
pub mod sop_multi_driver;
pub mod planner_tick;
pub mod readiness;
