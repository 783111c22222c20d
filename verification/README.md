# md5sum

A checksum tool in the style of `md5sum`, with its hashing and checking logic
verified in Verus.

- `src/` — the verified library:
  - `words.rs`: 32/64-bit word operations (`Word` trait), MD5 mixing
    functions, byte/word conversions.
  - `blocks.rs`: block folding and Merkle–Damgård padding, with their lemmas.
  - `md5.rs`, `sha256.rs`, `sha512.rs`: specifications of the algorithms and
    incremental hashers proved against them; `sha256_batch.rs`: SHA-256
    compression four rounds at a time, proved equal to the specification.
  - `hex.rs`: lower-case hexadecimal rendering; `text.rs`: splitting, lines,
    joining.
  - `crypto_md5.rs`: MD5 through the `md-5` crate (trusted call).
  - `cli.rs`: options, output lines, and the checking of digest listings.
- `app/main.rs` — argument reading, file and standard-input I/O, printing.
- `tests/` — test vectors, scenarios and laws on concrete values.
