# VoltTrace

VoltTrace decodes offline EV charging operations bundles: a binary envelope
that carries a site manifest, a token dictionary, telemetry blocks, receipt
batches, attachment operations, nested frame streams and station command
scripts, and an analyzer that turns a decoded bundle into findings.

Every decoder is written in Verus. Each public function states what it
returns as a function of its input bytes, through spec functions that read
the format directly (`parse_spec`, `telemetry_spec`, `receipts_spec`,
`manifest_spec`, `compile_and_run_spec`, `decode_spec`, ...). None of them
has a precondition, so every input is accepted and none can panic.

Layout:

- `src/cursor.rs`: the byte cursor and its model.
- `src/checksum.rs`: CRC-32, the 64-bit fold, Adler-style rolling score.
- `src/codec.rs`: raw, run-length, back-reference and delta payloads.
- `src/dictionary.rs`, `src/arena.rs`: the token dictionary with alias slots,
  and the attachment arena with linked handles.
- `src/manifest.rs`, `src/telemetry.rs`, `src/receipt.rs`: section bodies,
  binary and text forms.
- `src/script.rs`: the command script decoder and its virtual machine.
- `src/bundle.rs`, `src/stream.rs`: the bundle envelope and the framed stream.
- `src/analyzer.rs`: the findings and their score.
- `src/catalog/`: station, firmware, meter and rule tables.
- `src/text.rs`: text helpers (line splitting, trimming, number parsing) on
  bytes, and the wrappers around std's UTF-8 functions.
- `app/lib.rs`: `Display` and `std::error::Error` for a copy of the error
  type.

Properties proved beyond the contracts: feeding a stream in pieces equals
feeding it at once (`stream::feed_in_pieces`); decoded bundles respect the
version and section limits (`BundleDecoder::parse`); aliases follow the
tokens they name (`dictionary::alias_follows_patches`,
`dictionary::bound_alias_resolves`); compaction never adds entries and sorts
by key (`dictionary::compaction_orders_and_shrinks`); eviction keeps exactly
the surviving slabs (`arena::eviction_keeps_survivors`); decoded payloads
stay within 1 MiB (`codec::decoded_payload_is_bounded`); scripts stop within
10000 steps (`script::script_run_is_bounded`); binary receipt and
telemetry batches respect their record limits
(`receipt::binary_batch_is_bounded`, `telemetry::binary_batch_is_bounded`);
computed summaries have min ≤ mean ≤ max
(`telemetry::enriched_summaries_are_ordered`); manifest enrichment is
idempotent (`manifest::enrichment_is_idempotent`). Over sequences of calls:
the arena's retained byte count is the total length of its live slabs
(`arena::retained_bytes_accounting`), a linked slot keeps reading its slab
through later adds, evictions and other links
(`arena::linked_slot_survives_calls`), and a bound alias keeps its token's
bytes through later interning, compaction, other bindings and patches of
other tokens (`dictionary::bound_alias_survives_calls`). A dictionary always
has 64 alias slots and an arena 128 handle slots (type invariants).
