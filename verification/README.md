# shbt_simulator

The anyon simulator behind the Static Holographic Boundary Theory, split in two:

- `src/` is the verified library (Verus). It holds every part of the simulator that is
  exact: braid words and their minimization, the topological tracker's discrete state
  (anyon positions, worldlines, fusion tree, stabilizer checks), the braid plans of
  logical gates, CNOTs and the two-qubit Cartan layout, the OpenQASM parser and the
  classical side of a program run, the exact rationals of the boundary (framing defect,
  conformal weights, central charges), the Racah bookkeeping of 6j symbols, the field
  cost model of the baryogenesis benchmark, FNV-1a history collapse, and the decimal
  rendering of high-precision numbers. Each public function states what it returns in
  its `ensures`; the `law_*` proof functions state what holds across calls.
- `app/` holds the Python bindings (pyo3) and the arbitrary-precision floating-point
  physics (rug): state vectors, braid matrices, Solovay-Kitaev synthesis, Cartan
  coordinates, linking integrals and the SHBT boundary, projection, baryogenesis and
  causal-point computations. It calls the library for every exact step.

`tests/` exercises the library on concrete values.
