# cc_matrix_channel

A bridge between Matrix rooms and the session of a coding agent: messages of people who may write
to the agent reach its session, and its replies appear in their rooms.

`src/` is the library, written in Verus. It holds every decision that the bridge makes, with
contracts that say what is decided and laws (the public proof functions) that say what always holds:

- `access`, `access_laws`: who may write, and how a stranger is paired
- `inbound`, `content`, `mention`, `verdict`, `commands`: what becomes of a message from a room
- `relay`: what the agent's side is handed about it
- `outbound`, `chunk`, `files`, `history`: what the agent may send and read back, and how
- `rooms`: which rooms have talked to the bridge
- `status`, `status_laws`, `transcript`: what the agent is doing, read from its transcript
- `live_status`, `live_status_laws`: the status message that is kept up to date in a room
- `config`, `login`, `supervisor`: connecting to the homeserver and staying connected
- `text`, `numbers`, `calendar`, `clock`, `paths`, `json`, `ids`: what the rest is built on

Functions marked `external_body` and `assume_specification` items call other crates; the comment
above each says what it takes on trust.

`app/` is the program around the library: the Matrix client, the MCP server, files and clocks.
