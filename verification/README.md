# ccs_sidecar

The Android sidecar of CC Switch: a local HTTP service that carries the
app's commands (`POST /rpc/{cmd}`), pushes its events to the WebView over
server-sent events (`GET /events`), reports readiness (`GET /health`) and
serves the front end from the same origin when started with
`--webroot <dir>`, with a one-time token injected into `index.html`.

Layout:

- `src/` is the verified library (Verus). It holds what the service
  decides: the command table and the token check, the reply of every
  request, how a command's parameters are named and wired,
  how a planned call runs (the first parameter that cannot be resolved
  stops it; otherwise the command's result becomes the reply), the static-site
  path resolution, content types and handshake injection, port and
  start-up choices, the host actions, the store plugin's key-value data
  (loading, reads, writes, deletes and the text it saves), and the clipboard, start-at-boot and
  update behaviour on Android. Each public function that computes a result
  or changes its argument has a contract; the
  laws that tie functions together are public proof functions.
- `tests/` runs the library on concrete values.
- `app/` is the program around it: argument and environment reading, the
  tokio/axum server, the SSE stream, file reads and writes, the state table, the
  store's lock and the logger.
