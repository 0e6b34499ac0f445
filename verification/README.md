# wire_adapters

Two kinds of services answer for language models: those that speak chat
completions, and those that speak Anthropic messages. This crate puts both in
the terms of one protocol. It builds their requests from a conversation, and
turns their streamed answers into events.

- `src/` is the library. Its functions carry contracts, which Verus proves. The
  modules named `*_laws` hold theorems about several functions together, such as
  that no call of a tool gets lost on its way into a request, or that the pieces
  in which a text arrives do not matter.
- `tests/` runs the library on concrete values.
- `app/` does what the library does not: it decodes and encodes with `serde`,
  waits for the network, and reads the environment. The library tells it what to
  send and when an answer is at its end.

JSON values and headers are those of `serde_json` and `http`. The functions that
call these crates stand in `json.rs` and `headers.rs`, and say in their contracts
what is believed of them.
