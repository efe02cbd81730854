# zip_plus

Opening proofs of the Zip+ polynomial commitment scheme, verified with Verus.

- `src/` is the library. `phase_prove` starts a proof of one or more multilinear polynomials at a
  point and hands out a prover; the prover says what to do with the transcript and the Merkle tree,
  and takes the replies. `protocol` is the protocol as a state machine, which the prover is proved
  to follow, and `laws` states what holds of every proof: what its evaluation is, that the combined
  row agrees with the row products, how the transcript is laid out.
- `montgomery_inner_product` multiplies signed integers with field elements that were prepared
  once, in the three kinds of field of `monty` and `boxed`.
- `bigint` holds the calls of `crypto_bigint`. Their contracts are trusted, as is that of
  `std::slice::from_ref` in `phase_prove`; everything else is proved from them.
- `app/` runs a prover against a transcript and a tree.
- `tests/` holds the tests.
