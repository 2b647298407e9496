# tpu_sender

Leader selection and transaction fan-out for a Solana TPU client, verified with
Verus.

Given the current slot, the leader schedule and the TPU sockets that validators
have announced, the library decides where a transaction goes and what a send
amounts to once queues and connections have answered. It also runs a send for
every slot and tallies which transactions landed.

- `src/` is the library. `sender.rs` holds the ways of sending, `laws.rs` what
  they promise together; `many_dest.rs`, `direct.rs`, `status.rs` and
  `each_slot.rs` are state machines whose I/O the caller performs.
- `app/` is a program around it: it reads the cluster over RPC, drives the state
  machines, and sends one transfer per slot.
- `tests/` runs the library against the crates that it calls.

What is taken on trust of those crates stands in functions marked
`external_body`, each with a comment that says what is claimed.
