# chata

A small chat service: a server that keeps accounts and message boxes, a
terminal client, and a remote console for the operator.

- `src/` is the library, verified with Verus: the 256-byte wire frames
  (`frame`), text helpers and the `::` command separator (`text`), accounts
  and authentication (`account`), message boxes and registration (`user`),
  the server's event queue (`queue`), the server's answers to client
  requests (`session`), the remote console (`console`), the client's side of
  the protocol (`client`), terminal tables (`layout`), the graphical client's
  state (`chat`), and properties across operations (`laws`, `exchange`).
- `app/` holds the programs: `chata server`, `chata ctrl` and `chata cli`.
  They do the networking, the files, the threads and the printing, and leave
  every decision to the library.
- `tests/` runs the library on concrete values.
