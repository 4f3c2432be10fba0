# database_commitment

Commitments to pipe-delimited datasets, and proofs that a public row belongs to
a committed dataset.

The verified library is in `src/`:

- `text`, `decimal`: trimming, fields of a line, decimal integers
- `encode`, `field`: cells as integers, rows as field elements
- `capacity`, `dataset`, `files`: circuit sizes, loaded datasets, dataset files
- `columns`, `commit`: column polynomials and their commitments
- `circuit`, `membership`: the membership circuit, and what it proves

`app/` reads the files and runs the circuit in `halo2_proofs`; the readings of
fractional numbers are floating point and are made there too. `tests/` runs the
library together with the proving system.
