# dsp_cat

Composable DSP signal-processing pipelines, verified with Verus.

- `src/sample`: the `Sample` type with saturating arithmetic, and `SampleFormat`.
- `src/golden`: reference models of every block (FIR, CIC, delay, gain,
  decimator, interpolator, accumulator) and of composed pipelines.
- `src/free_category`, `src/graph`: pipeline topologies as graphs whose
  paths form a free category.
- `src/interpret`: block descriptors, their associative composition, and the
  interpretation of graph paths as descriptors.
- `src/composition`: sequential cascades and parallel channels.
- `src/hdl`: hardware IR graphs of every block, their composition with
  `compose_raw`, and `build_pipeline`; `eval` and `clocked` say what a
  graph computes, in one pass and clocked cycle by cycle.
- Hardware is built only as these IR graphs; the `rust_hdl` logic blocks
  (FIR and CIC filter modules, MAC unit, tap chain, integrator and comb
  stages) are not part of this crate, as `rust_hdl` is not a dependency.
- `app/`: deferred simulation in `comp_cat_rs`'s `Io`, and the hand-over of
  IR graphs to `hdl_cat`.

Every function in `src/` carries a contract that Verus proves; the laws of
the library (composition is associative, interpretation is functorial, a
composed pipeline runs its blocks in sequence, composing hardware blocks
keeps their interface, sign extension keeps the signed value, the
arithmetic right shift divides rounding down, the decimator keeps every
factor-th valid sample, and each hardware block, clocked cycle by cycle,
behaves as its documentation describes, and so on) are public proof
functions.
