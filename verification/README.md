# http_server

A small HTTP/1.1 server (index page, echo, user-agent echo, file upload and
download) whose request handling is a library verified with Verus.

- `src/` — the verified library:
  - `text.rs`: searching, splitting, trimming and decimal rendering of
    character sequences, with the sequence functions they compute and laws
    (split/join, trim shape, decimal round trip).
  - `headers.rs`: header names and values, and `http::HeaderMap` seen as the
    sequence of its entries; the trusted wrappers of `http`'s header calls.
  - `protocol.rs`: response versions, status reasons, request-target paths
    (through `http::Uri`) and UTF-8 decoding.
  - `error.rs`: the parse errors.
  - `objects.rs`: methods, the request line, requests given as lines, and
    responses.
  - `handlers.rs`: raw response rendering, received text to request lines,
    routing and the answers for each route.
- `app/` — the program: command line, sockets, files, and the loop that hands
  each request to the library.
- `tests/` — tests of the library on concrete requests and responses.
