# mini_http

A small HTTP framework in the style of Express.js: request parsing, routing
with path parameters and route groups, responses and cookies, middleware
(CORS, rate limiting, static files, compression, logging), sessions, shared
state, templates and WebSockets.

The library under `src/` is verified with Verus: each public function states
what it returns or changes, and the laws of the framework (first matching
route wins, WebSocket frames decode to what was encoded, a request is read
whole before it is answered, sessions, rate limits) are proved as proof
functions next to the code they speak of.

`app/` holds what runs around the library: the TCP/TLS server loop, the
thread pool, clocks, files and standard error, the application facade and an
example program.

Layout of `src/`:

- `text`, `decimal`, `strmap`, `url`: characters, numbers, maps and URL
  decoding the rest builds on.
- `request`, `multipart`: parsing requests and their bodies.
- `response`, `cookie`, `error`: building responses and their wire format.
- `router`: route patterns, route tables, dispatch.
- `middleware`: CORS, rate limiting, static files, compression, logging
  lines, the middleware and error handler interfaces.
- `session`, `context`: sessions and shared state.
- `websocket`: handshake and frames.
- `server`: the per-connection decisions (reading a request, keep-alive,
  the server's own answers, the middleware chain).
- `template`: rendering with Tera.
