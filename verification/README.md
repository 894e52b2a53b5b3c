# md_ml

Two-party secure computation over the rings Z_{2^K} with SPDZ-2k style MACs
in Z_{2^(K+S)}, for matrix workloads: additions, products (with and without
fixed-point truncation), element-wise products and comparisons with zero.
A trusted dealer prepares masks and Beaver triples; the parties then evaluate a
circuit of gates, exchanging masked values.

The library in `src/` is written in Verus and verified:

- `share`, `ring`, `linear_algebra`, `fixed_point`: the share element types,
  wrapping matrix arithmetic and the integer models the contracts use.
- `dealer` and the `fake_*` modules: the dealer, its per-gate dealings, and
  the dealer's circuit.
- `gate`, the online gate modules, `beaver`, `bits`, `carry`, `compare`,
  `circuit`, `order`: the parties' gates, each one a state machine driven by
  the messages it receives (`Action`), and the circuit that walks them in
  order.
- `read_back`: what each party reads back of the dealer's files, gate by
  gate.
- `product_circuit`: the circuit input, input, product, output, end to end.
- `networking`, `timer`, `rng`: port numbering, timing and randomness.

Laws of the protocol stand as proof functions: the Beaver combination and its
MAC (`beaver`), the dealt products (`fake_multiply_gate`,
`fake_elem_multiply_gate`), the two-party opening of dealt shares (`dealer`),
the rounds of the comparison (`carry`, `compare`, `gtz_gate`), the
agreement of the dealer's files with what the parties read (`read_back`),
the opening of a product circuit to x * y (`product_circuit`), the two
matrix products agreeing (`linear_algebra`) and packed bits read back
(`bits`).

`app/` holds the programs: TCP transport, preprocessing files, the demo and
benchmark binaries. `tests/` runs both parties in one process.
