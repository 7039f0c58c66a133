# claw

The verified core of the claw terminal client, written in Verus.

- `src/context.rs` filters a conversation before it is sent to the model:
  thinking text is emptied (signatures kept), large results of known tools
  are replaced by structured summaries unless they are recent and fresh,
  thinking-only messages are dropped, and tokens are estimated.
- `src/convert.rs` turns session messages into request messages, one per
  session message.
- `src/picker.rs` is the line editor of the prompt (history, slash-command,
  `@` mention and `$` skill pickers) as a state machine over `PickerView`;
  `src/matching.rs` filters and orders picker items; `src/display.rs`
  computes what the prompt shows.
- `src/agents.rs` keeps the progress records of sub-agents and decides how
  a finished job and a join are reported.
- `src/laws.rs` states and proves properties that span these functions.

`app/` holds what runs around the library: the raw-mode terminal loop,
sub-agent threads, and JSON for requests.
