# census

What a supervisor knows, by gossip, of the service groups that run in its ring and of the
members of each group: who belongs to them, who leads, who leads an update, who is alive.

The library in `src/` is verified with Verus.

- `rumor`: what gossip says, as plain records.
- `config`: service configuration, read and written by the `toml` crate. The claims made of that
  crate stand here, and nowhere else.
- `text`: the order of text, and decimal numerals.
- `assoc`, `population`: keyed sequences read as maps; the members of a group in the order of
  their identifiers.
- `member`, `group`, `ring`: the census itself.
- `event`: what the event stream is told of a member.
- `laws`: what holds of every update, of every state, and of updates taken together.

`app/` is ordinary Rust around the library: the conversions to and from the types of the gossip
layer, the core library, the event service and `serde`. It expects the crates `butterfly`,
`hcore` and `eventsrv` beside it.
