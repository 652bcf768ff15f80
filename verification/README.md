# quanergy_client

A client for Quanergy M-Series and M1 lidar sensors whose core is verified
with Verus.

## Layout

- `src/` — the verified library. Public functions carry contracts over
  spec functions and views: which result or error comes on which input,
  with error texts where callers depend on them. Results of outside
  crates are named (SHA-256, XML events) or described by their shape (the
  clock's time text).
  - `protocol` — packet header framing, return selection, device URLs.
  - `codec` — byte-order reads and writes.
  - `pipeline` — decoding of the M-Series, reduced, M1 and HVDIR packet
    bodies, status checks, the cloud assembler (sizes, numbering, times)
    and organized-cloud layout.
  - `replay` — the `.qraw` recording format, writer and reader, and their
    round trip.
  - `storage` — the `.qpcd` file layout and header rules, database value
    conversions, file naming.
  - `config` — XML settings flattening and lookup, settings application,
    sensor model.
  - `station` — station file checks in file order, hammer identifiers,
    configuration fingerprint.
  - `extrinsic` — lines of a corresponding-points file.
  - `capture`, `diagnostics`, `visualizer` — the decisions of the capture,
    connectivity-test and viewer/console programs.
  - `calibration`, `measure` — the counting rules of encoder calibration and
    hammer measurement.
  - `text`, `error`, `cloud` — shared text rules, errors, the frame type.
- `app/` — the runtime around the library: floating-point geometry and
  calibration, network and file I/O, SQLite and PCD storage, threads and the
  command-line programs.
- `tests/` — tests of the library on concrete values.
