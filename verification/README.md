# transact (receipts)

Transaction receipts: the state changes, events and data that processing a
transaction produced, their builders, and their protobuf messages and bytes.
The library is written in Verus; its contracts state what each function
returns, and its proof functions state the laws that tie the functions
together (a value written to bytes reads back as the same value, a value
converted to its message converts back).

Layout:

- `src/protocol/receipt.rs` — `StateChange`, `Event`, `TransactionReceipt`,
  their builders and errors, and their conversions to and from protobuf
  messages and bytes.
- `src/state.rs` — the state layer's `StateChange`.
- `src/protos/` — the protobuf messages (`transaction_receipt`, `events`) and
  `wire`, the wire format they use, with the primitive reads and writes of the
  `protobuf` crate behind trusted wrappers.
- `tests/` — tests of the library.
- `app/` — std's formatting and error traits for the library's types.
