# micro_sp

The runtime of a state-based controller, verified with Verus.

A controller is a `Model`: operations with guarded transitions, automatic
transitions and operations, and SOPs (trees of operations run in sequence,
side by side or as alternatives). Several runners drive it, each in a loop:
read its variables from a shared state store, decide, write back what
changed. This crate holds everything the runners decide, with contracts
stated over mathematical views of the state and proved by Verus; the loops,
the timers, the environment and the store are in `app/`.

## Layout of `src/`

- `value`, `state`, `predicate`, `transition`, `operation`, `sop`: the state
  model, guards and actions, the operation lifecycle, SOP trees and the model.
- `runner_states`, `goals`: the lifecycle enums the runners exchange and the
  goal encoding, queue order and admission.
- `runner_keys`, `state_init`: the key set each runner reads, and the initial
  variables a model needs.
- `process`: one tick of the operation state machine.
- `auto_runner`, `auto_operation_driver`, `plan_runner`, `sop_runner`,
  `sop_driver`, `sop_multi`, `sop_multi_driver`, `goal_tick`, `planner_tick`:
  one tick of each runner, as a function of the state read and of what the
  runner keeps between ticks.
- `readiness`: checks that a state read holds what a tick reads.
- `tick`, `main_runner`, `text`: the tick clock and period, the process
  settings, and the text handling they share.
- `ids`, `clock`: fresh random ids and the system clock, the crate's two
  points of contact with the outside world.

## Building and checking

The library is verified with Verus; `tests/` holds the tests, which run
against the compiled library.
