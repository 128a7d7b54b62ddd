# axum_ws

Phoenix-style channels over WebSockets, with the library's logic verified
by Verus.

- `src/` is the verified library: topic patterns and their matching
  (`topic`), event and status names (`event`), the wire format of messages
  (`message`), the state of a socket (`socket`), channels and their handlers
  (`channel`), endpoints and their routes (`websocket`), and the decisions
  taken on each connection (`connected_socket`). The JSON values that
  messages carry are serde_json's; `json` states what the library relies on
  of the few serde_json calls it makes.
- `app/` is the server around it: axum routing and upgrade, the tasks that
  serve a connection, the async handlers and the process-wide broadcast
  channel.
- `tests/` exercises the library on concrete values.
