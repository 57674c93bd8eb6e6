# vscr-core

The simulation rules of a data-driven 2D fighting game, written in Verus and
verified: per-frame character state, input buffering, hit detection and
resolution, hitstop, round flow, and the decisions behind the demo's controls
and tuning tools.

- `src/` — the verified library. Each module states its rules as spec
  functions, gives its executable functions contracts over them, and proves
  the laws that hold across frames (hitstun recovery, round phase order,
  damage totals, soundness and completeness of hit detection, hitstop length,
  tab cycling of the tuning selection).
- `tests/` — tests of the library on concrete values.
- `app/` — the Bevy front end: components, events and systems that carry the
  library's values through the ECS, floating-point motion and geometry,
  rendering, input devices and file loading.
