# grweb

A small HTTP framework on goroutines (the `gorust` runtime): a route tree
with `:name` parameters in which exact segments win over parameters,
middleware in onion order, form and query parsing, sessions, static files,
websockets, and TOML configuration.

The request logic is written in Verus and proved against its contracts:

- `http` — request heads, header blocks, response bytes, upgrade detection
- `connection` — the per-connection state machine (read, parse, answer, write)
- `router` — the route tree, static directories, and what a request resolves to.
  A path registered without parameters reaches the handler last registered
  for it, whatever parameter routes exist. A path that fits a registered pattern reaches that
  pattern's handler with each parameter bound to its segment, unless an exact
  route claims a segment at a parameter position or an earlier route gave the
  parameter another name (the first name is kept).
- `form` — URL decoding, URL-encoded and multipart bodies, query strings
- `context` — what a handler sees of a request
- `session` — the session store, cookies and expiry
- `pool` — admission control for connections
- `middleware` — CORS headers
- `websocket` — handshake key, frame encoding and decoding, message assembly
- `static_files` — content types, file answers, and which file a request
  for a served directory reaches (never one outside it)
- `error`, `config`, `logging`, `strmap`, `text` — errors and their JSON
  answers, settings and defaults, logger settings, an insertion-ordered
  string map, and text helpers

`app/` holds the parts that touch the world: the accept loop and socket I/O,
file reads, the configuration file, the global logger and session store,
database pools, and the dynamic handler and middleware chain.
