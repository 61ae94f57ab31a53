# token_ledger

A token ledger for JAM whose balances are kept off chain. A service on chain stores one state root;
a builder off chain holds the accounts, nets and batches transfers, signs them, and submits them as
work packages.

- `src/` is the library, verified with Verus: payloads and their encodings, refinement and
  accumulation, the builder's accounts, netting and batches, submissions, and the console's
  commands. Its crate documentation lists the modules.
- `tests/` runs the library.
- `app/` is ordinary Rust around it: the service's entry points, the calls to a node, the console's
  loop and what it prints, and the reading of payload documents with serde.

What the library has from other crates stands in small trusted functions, each with a comment that
says what is claimed of the outside function: hashing (`blake2`, `jam-std-common`), signatures
(`ed25519-consensus`), hexadecimal notation (`hex`), the list encoding (`jam-codec`), JSON text
(`serde_json`), and the encoding of work packages and the length of a segment (`jam-types`).

## How a batch travels

1. `BuilderState::queue_transfer` nets a request with what is pending between the two accounts.
2. `BuilderState::begin_batch` carries out the pending transfers on a copy of the builder and lays
   out the payload and the extrinsic. The builder becomes that copy once the package is submitted.
3. `TokenLedgerV2::refine` and `refine_transfers` check the payload and every transfer, and hand on
   the two roots.
4. `accumulation::on_work_item` moves the stored root if it is the batch's old one.

`laws::prepared_batch_reaches_the_chain` ties these steps together.
