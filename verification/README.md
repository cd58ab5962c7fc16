# quote_server

A real-time stock quote server and its interactive client: clients connect
over TCP, send `PING`, `STREAM host:port TICKER...` and `STOP` commands, and
receive quote updates over UDP.

## Layout

- `src/` is the library, verified with Verus. It holds the logic of the
  server and client, each function with a contract:
  - `protocol`: the command language and the per-connection state machine
    (replies, registration, stop, keep-alive), with its laws;
  - `client`: which quotes an update delivers to a subscriber, and the
    lifecycle of a client's command channel;
  - `registry`: clients under counter-issued ids;
  - `quote_book`: the current quote of each ticker symbol;
  - `config`: the ticker list of a configuration text;
  - `quote_wire`: the `ticker|price|volume|timestamp` record format;
  - `decimal`, `float_text`, `text`: numbers and text as std reads and
    writes them;
  - `server_control`, `generator`, `cli`, `errors`, `defs`.
- `app/` is ordinary Rust around the library: threads, channels, sockets,
  files, logging, JSON messages, floating-point prices and the two programs.
- `tests/` exercises the library.
