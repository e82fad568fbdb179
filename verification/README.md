# resty

A small REST framework: routing, HTTP request and response handling, and
the generation of an OpenAPI description from declared endpoints, schemas
and responses.

- `src/` is the verified library. The router (`router`), the request head
  reader and parser (`request`), the response state machine (`response`),
  HTTP methods (`method`), bodies and server sent events (`body`), the API
  description (`openapi`, `schema`, `paths`, `responses`, `meta`, `map`),
  file routing names (`files`), macro arguments (`args`), the declaration
  file (`decl`) and the standard HTTP errors (`http_error`) each state what
  they compute in their contracts.
- `app/` holds what the library leaves to ordinary Rust: the connection
  loop on smol, the asynchronous request and response wrappers, serde
  bodies and the written description, sockets, event queues, the code the
  macros generate, and the macros' entry points (`entry`).
- `tests/` runs the library on concrete values.
