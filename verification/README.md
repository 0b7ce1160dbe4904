# telecon

Remote control of a Linux machine through a Telegram bot. `telecond` (the
daemon) shows a menu of services, runs them and custom handlers when buttons
are pressed, and sends notifications; the controller (`send`, `reload`)
passes requests to it over a Unix socket.

Layout:

- `src/` — the verified library (Verus): the service tree and its lookup by
  path, the handler registry, keyboards, the decisions taken on commands and
  button presses, the plan of how a notification is delivered, the request
  formats of both sockets and the controller's option handling, each with its
  contract, and the laws that tie them together (for instance, pressing a
  button of a keyboard does what the button shows).
- `app/` — the program around it: configuration and directory scanning,
  the Telegram dispatcher, the socket server, process spawning and the
  command-line controller.
- `tests/` — tests of the library on concrete values.

Notes:

- A notification is delivered as its files and its media sent as documents
  (uncompressed), then its text as a message with the buttons' keyboard: the
  controller's `--media` option sends media uncompressed, as documents.
- The children of a folder and the registered handlers are kept in vectors
  (sorted by key, and with distinct names) under type invariants, not in a
  `BTreeMap` and a `HashMap`. Those forms were not tried: vstd's map
  specifications rest on a key type whose equality and order Verus knows,
  which `String` keys do not give here, and the keyboard needs the children
  in key order.
- `Cargo.toml` names `takecell`, which no code uses: it holds the telegram
  library's own dependency on a release that the toolchain here can build
  (its newest release needs a newer rustc).
- The daemon serves RON requests on its socket, or, started with `--line`,
  the line protocol (`send <text>`, `reload`) that `line send` / `line reload`
  speak.
- Handlers and services are started with their configured arguments; no
  further context is passed to them.
