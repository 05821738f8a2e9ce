# logos_messaging_a2a

Agent-to-agent messaging whose logic is proved with Verus: what every public
function returns or changes is stated in its contract and checked.

## Layout

- `src/sds`: causally ordered channels. Lamport clocks, a Bloom filter of what
  was received, buffering until dependencies arrive, acknowledgements, repair.
  `laws.rs` proves what holds of a channel over many messages: nothing is lost
  while the buffer has room, delivery respects causality, and no message is
  delivered twice, however often it comes.
- `src/node`: the agent. Discovery, presence, delegation with load-aware
  strategies, sending with payments, retries and offloading, polling, responses.
  `laws.rs` proves what holds across these.
- `src/storage`, `src/transport`: the protocols spoken with storage nodes and
  messaging modules, as steps from an event to the next action.
- `src/codec.rs`, `src/json.rs`, `src/keys.rs`, `src/clock.rs`, `src/unique.rs`
  and part of `src/node/payment.rs` hold every call into another crate or into
  the parts of `std` without a specification. The contracts there are believed,
  not proved; each says what it claims.
- `src/table.rs`, `src/order.rs`, `src/text.rs`: ordered tables keyed by text,
  stable sorting, text functions.
- `app`: the asynchronous side. It performs I/O, turns bytes into values and back,
  and runs the loops that ask the library what to do next.
- `tests`: the library from outside, with concrete values.

## State machines

Work that waits on the outside world is written as a machine: a `begin` that
returns the first action, and steps that take what came back and return the next
action. The machines are `PollRun`, `SendRun`, `PayloadRun`, `ReliableSend`,
`UploadRun`, `download_step`, `boot_step`, `start_step`, `wait_step` and
`collect_step`. Each step's contract says which state and which action follow from which event.
