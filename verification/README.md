# http_types

Typed HTTP headers, media types, methods, dates and authorization, written
in Verus: each parser and formatter is proved against a mathematical model
of what it reads and writes.

## Layout

- `src/` — the verified library.
  - `headers/` — header names, values, the `Headers` map (a sequence of
    entries with distinct names) and the typed-header helpers.
  - `utils/date.rs` — HTTP dates: IMF-fixdate, RFC 850 and asctime parsing,
    IMF-fixdate formatting, with the round trip proved.
  - `auth/`, `cache/`, `client_hints/`, `conditional/`, `content/` — typed
    headers; most state a round-trip law (what `apply` writes,
    `from_headers` reads back).
  - `media_type/` (also reachable as `mime`) — media type parsing after the
    WHATWG algorithm, parameters, constants and sniffing.
  - `language/`, `method.rs`, `url.rs`, `body.rs`, `multipart.rs`.
  - `text.rs` — the character-level models shared by all parsers.
- `tests/` — tests run against the compiled library.
- `app/` — what stays outside the verified library: weighted proposals and
  the `Accept-*` headers built from them (floating point; which parts of
  such a header are proposals the library decides), streaming bodies
  (asynchronous I/O), and conversions to and from the `http` crate.

Calls into `base64`, `url` and `infer` stand behind small trusted wrappers
whose contracts name what those crates compute.
