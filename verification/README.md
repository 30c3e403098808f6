# p3_sha512

A SHA-256 AIR with a byte lookup table, written in Verus. The library fills
the trace of the compression function (one row per round, 64 rows per block),
evaluates the AIR's constraints on pairs of consecutive rows, and counts the
byte lookups that the trace needs so that a lookup table can answer them.

What is proved, in the main:

- `sha256::sha256` and `sha256::permute` compute SHA-256 and its compression
  function as FIPS 180-4 states them (`sha_spec`).
- The trace of a sequence of blocks holds, on the last row of each block, the
  chaining value of SHA-256 on the blocks so far; with the padding block, the
  digest of their bytes (`air::lemma_trace_digest`).
- The trace meets the AIR's constraints on every pair of consecutive rows
  (`air::completeness::lemma_trace_satisfies_air`), and the lookups that the
  constraints send are exactly the requests that the chip counted
  (`air::lookups::lemma_trace_lookups`, `chips::byte::lemma_apply_requests_count`,
  `chips::byte::constraints::lemma_table_row_key`).
- The round-index encoder enumerates all `C(k + d, d)` points of small
  degree in order (`encoder::count::lemma_points_count`), and its flag
  expressions are one at their own point and zero at every other
  (`encoder::flags`).

Layout:

- `sha_spec` — SHA-256 as spec functions; `sha256` — a direct implementation.
- `builder` — a constraint checker over concrete rows in a prime field.
- `chips::byte` — the byte lookup chip, its table and bus.
- `bits_air`, `gadgets` — the bit-level gadgets (rotations, shifts, XOR, AND,
  `Ch`, `Maj`, the sigmas, addition), each with its completeness lemma.
- `encoder` — the round-index encoder and its flag expressions.
- `columns`, `generation` — the row layout and the trace generator.
- `air` — the SHA-256 AIR, its constraints, and the laws above.
- `app/` — a small program that prints the digest of a message by this
  library and by the `sha2` crate.
