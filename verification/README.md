# particle_sim

A gravity particle simulation with an egui front end.

- `src/` is the verified library:
  - `flags`: the flags an object carries (`ObjectFlags`), as a set of bits.
  - `collisions`: what a tick decides when objects touch: which object absorbs
    which, which objects are marked for removal, which objects remain.
  - `tps_tracker`: the ticks-per-second counter.
- `app/` is the program: the window, the tick loop, and the floating-point
  physics (motion, gravity, distances, drawing), which call the library for
  the decisions above.
- `tests/` exercises the library on concrete values.
