# autonomousim

The decisions of a vehicle simulator, verified with Verus: procedural maps, control of multirotors
and ground vehicles, multibody models, contact and reproducible random streams.

Floating-point numbers enter the library as their bit patterns. The library orders, selects, counts,
searches and validates them; sums and products stay outside.

- `src/` is the library. Its parts:
  - random streams and noise: `rng`, `fraction`, `shuffle`, `noise`
  - terrain and water: `terrain`, `flood`, `drainage`, `lakes`, `shore`, with `grid`, `heap`, `sorting`
  - land use: `landcover`, `farmland`, `scatter`, `material`
  - roads: `routing`, `search`, `network`, `roads`
  - maps: `config`, `json`, `cache`, `preview`, `report`
  - control: `modes`, `mapping`, `tuning`, `cascade`, `ground_actions`, `ground_control`, `batch`
  - mechanics: `dynamics`, `contact`, `geometry`, `linalg`, `spline`, `frames`, `time`
  - numbers and text: `ieee`, `text`
- `tests/` runs the library on concrete values.
- `app/` is the `autonomousim` command: numerics, files and printing around the library.
