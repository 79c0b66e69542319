# phase_challenge

Fiat-Shamir challenges for multi-phase BN254 circuits, verified with Verus.

A phase commits to its witness values and derives challenges from the
commitment:

1. `srs` reads the points of the reference string.
2. `commitment` commits to the values (KZG) and encodes the commitment as four
   scalar field elements.
3. `transcript` hashes the encoding with a Poseidon2 sponge and splits each
   hash into two challenges of 127 bits.
4. `phase` puts the steps together.

The permutation of the sponge is that of the backend: `solver` declares what a
backend answers for.

`field` and `curve` hold field elements and points as plain values. Their
arithmetic is that of `ark_bn254`, and the arithmetic of `bigint` is that of
`num_bigint`; each call goes through a small function whose contract says what
is believed of it. `app/` finds and reads the file of the reference string.
