# smart_brain

The decision core of an autonomous-robot "brain" (drones, cars, surface
vessels, legged robots), written in Verus: every function in `src/` carries a
contract that the verifier proves.

## Layout

- `src/` — the verified library:
  - `ring` — preallocated ring buffer that overwrites its oldest entry, and a
    lock-protected shared variant;
  - `ais`, `colregs` — AIS sentence decoding and the collision-regulation
    decision rules;
  - `world`, `grid` — grid worlds and 3D voxel-state grids (indexing,
    statistics, frontier detection, obstacle inflation);
  - `autopilot` — the decision rules shared by the exploration, car and boat
    autopilots (plan refresh, waypoint following, stall handling, cruise tracks);
  - `behavior` — behavior-tree composition rules and the drone nodes' decisions;
  - `gait`, `sensor`, `rag`, `time`, `config`, `error`, `text` — gait
    bookkeeping, deterministic hashing, retrieval tokens and reports, time
    stamps, configuration rules, errors and text helpers;
  - `types`, `tool`, `model`, `llm`, `agent` — messages, tools, models, the
    model backends' reply rules and the tool-calling agent loop.
- `tests/` — executable tests of the library.
- `app/` — ordinary Rust around the library: HTTP model backends, JSON
  configuration files, and the floating-point geometry, mapping, sensing,
  kinematics and locomotion code.

## Not included

The autopilots' control loops (one step of the exploration, car and boat
autopilots) and the behavior-tree runner (ticking `Sequence`, `Selector` and
`Retry` nodes, the tree itself and the brain's output messages) are not part
of this crate: they are built on path-planning, navigation, messaging and
middleware libraries that this project does not contain. What those loops
decide stands in `src/autopilot.rs` (plan refresh, waypoint following, stall
handling, cruise tracks) and `src/behavior.rs` (how a sequence, a selector and
a retry decorator combine their children's statuses); nothing in this crate
calls them yet, they are the verified rules such a loop is built on.
