# third_harmonic

Verified integer core of a simulation of the photon populations in third
harmonic generation.

- `src/` (Verus): the parameters of each mean photon number (`alpha_square`),
  the truncation of the Hilbert space to the relevant photon numbers
  (`poisson`), the layout of the state vector and the time grid (`layout`,
  `evolution`), the couplings of the subspace Hamiltonians (`hamiltonian`) and
  the terms of the moments (`moments`). Times are counted in ticks of 10^-6.
- `app/`: the program — command line, Poisson probabilities, time evolution
  with scirs2 on rayon threads, the `.npy` cache, the floating-point moments
  and the ruviz plots.
- `tests/`: tests of the library on concrete values.
