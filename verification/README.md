# cddlc-validate

Validates decoded JSON and CBOR data against a resolved CDDL schema, with the
validation walk verified in [Verus](https://github.com/verus-lang/verus).

- `src/value.rs`, `src/double.rs`: the data model shared by both formats, and
  double-precision numbers by their bit patterns.
- `src/ir.rs`: the schema.
- `src/rules.rs`: what is reported for a value against each part of a schema;
  `src/conformance.rs`: when a value conforms, and that exactly then nothing is
  reported.
- `src/checks.rs`, `src/engine.rs`: the checks on single values and the walk.
- `src/error.rs`, `src/text.rs`: failures, their paths and their messages.
- `src/cbor.rs`, `src/json.rs`, `src/base64url.rs`, `src/pattern.rs`: the calls into
  `ciborium`, `serde_json`, `base64` and `regex`, with what is relied on of each.
- `src/laws.rs`: what holds of every schema and every document; `src/not_a_number.rs`:
  that the payload of a NaN never shows in a report.
- `app/`: failures as `std::error::Error`, and native floating-point numbers.
