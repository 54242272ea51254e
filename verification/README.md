# tessaridb_client

The client side of a TessariDB node, verified with Verus: the value codec, the wire protocol, the
statement builders, the mapping of records into declared types, and the HTTP surface for files,
backup and operations. It speaks protocol 1.1.

- `src/` is the library. Everything it decides or computes has a contract, and what holds of it as
  a whole stands in the `law_…` proof functions beside it.
  - `value`, `fields`, `geometry`, `double`: the seventeen types a node carries.
  - `codec`: the bytes of a value (`layout`), what bytes are read as (`parse`), the functions that
    write and read them, and why the one undoes the other (`laws`, `extent`, `decoded`).
  - `wire`, `client`, `feed`: frames, requests, answers and changes, and one conversation.
  - `query`: statements in which no value is ever text, each referring to its values once and in
    order (`woven`).
  - `mapping`: rows into structs.
  - `http`: requests, replies, sessions, buckets.
- `app/` holds the sockets: tokio streams, retries with their pauses, and `std` errors.
- `tests/` runs the library on concrete bytes and texts.

Doubles are held as their bits, maps from names as ordered fields, and each exchange with a node is
two halves, the bytes to send and what the reply comes to, so that the library touches no socket.
