# judicious

Rate limiting by completion time: a slot stays unavailable for a cooldown interval that starts
when its permit is *returned*, not when it was acquired.

## Layout

- `src/` is the verified library (Verus).
  - `time.rs`: UTC instants (`Timestamp`) and signed spans (`Interval`) within chrono's calendar,
    with exact arithmetic.
  - `trailing_edge/unfair/common.rs`: the limiter state, its model (`Occupancy`), the request
    and return decisions as spec functions, the executable operations proved against them, and
    the proof functions that state the limiter's properties.
  - `trailing_edge/unfair/mutex_common.rs` (aliased by `arc_mutex.rs`): the limiter whose state
    a lock guards; operations run while the state is held exclusively.
  - `trailing_edge/unfair/queue.rs`: the limiter that owns its state and takes permit returns
    in over a channel.
  - `toolchain.rs`: choosing the newest stable Rust channel from a release listing, and setting
    it in the text of a `rust-toolchain.toml` file.
- `app/` is ordinary Rust around it: `Arc<Mutex<..>>` sharing, permits that return themselves on
  drop, waiting with tokio, chrono conversions, and the toolchain updater's network and file I/O.
- `tests/` exercises the library.
