# http_server

A small HTTP/1.1 server. The library (`src/`) is verified with Verus; the
program around it (`app/`) does the socket, epoll, thread and file I/O.

Library modules:

- `http::text` – character search, line splitting, decimal formatting and
  `usize` parsing, each against a specification over character sequences.
- `http::headers` – an ordered header collection with distinct keys, read as a map.
- `http::request` – `HttpRequest::parse`, proved equal to `parse_request`.
- `http::response` – response builders and `to_bytes`, proved equal to `response_bytes`.
- `http::status` – status codes and reason phrases.
- `router` – first-match routing by method and path.
- `runtime::executor` – the task table and run-loop decisions of the executor.
- `runtime::reactor` – the waker registry, epoll operations and event masks.
- `runtime::tcp` – write progress of `write_all`.
- `static_files` – request paths to files under a root, and content types.
- `server` – per-connection decisions, connection admission and the built-in handlers.

`app/` holds `main`, the TCP futures, the epoll event loop, the executor's
polling loop and the file reads.
