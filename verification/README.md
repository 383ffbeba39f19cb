# plato_dynamic_locks

Runtime lock accumulation, verified with Verus. A lock is a constraint learned
from experience: what triggers it, what it enforces, where it came from, and
how strong the evidence is. Locks gain strength when verified, lose it when
violated, and fire on inputs that match their trigger pattern.

Strengths, trust weights and confidences are fixed-point numbers in
millionths (`ONE` = 1.0), so every formula is exact integer arithmetic.

Modules under `src/`:

- `source`: `LockSource`, its name and trust weight.
- `clock`: nanosecond timestamps (the clock reading is trusted, the rest verified).
- `text`: byte-bounded truncation and character-level substring matching.
- `lock`: `Lock`, its evidence counters, strength steps, confidence and
  effective strength.
- `accumulator`: `LockAccumulator` (locks with unique identifiers), checking
  inputs, listings, pruning, the strongest lock and statistics.
- `laws`: proved properties that relate these operations.
