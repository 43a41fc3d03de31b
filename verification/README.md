# gas_law_sim

A real-gas simulator (ideal and Van der Waals gases, a particle filter, a PID
controller and an extended Kalman filter) that prints text plots and tables.

- `src/` is the verified library: the PID controller's bounded error history
  (`history`), the row-major layout of 4x4 filter matrices (`matrix`), the
  character grids of the plots (`plot`) and the widths and row selection of the
  report (`layout`).
- `app/` is the program: every computation on floating-point numbers, the
  random sampling (through `rand` and `rand_distr`) and the printing.
- `tests/` exercises the library on concrete values.
