# hier_kv_gateway

The verified core of a gateway that routes inference requests to backends by what their KV caches
hold, and the ordinary Rust around it.

- `src/` is the library, and Verus proves its functions against their contracts: identifiers and
  configuration, the size of a KV cache, cuckoo filters and prefix trees of cached blocks, the
  metadata store over them, cluster membership and what is done about each message, shared state,
  and what is said to backends and made of their answers. Calls into other crates, and a few into
  the standard library, stand in wrappers marked `external_body`. Verus believes the contracts of
  these without proof; the comment above each says what is believed.
- `tests/` runs the library on concrete values.
- `app/` reads clocks and files, talks to sockets, Redis, NATS and HTTP services, and does the
  arithmetic on numbers with a fraction. It performs what the library decides.

Time is always an argument. Numbers with a fraction are carried through the library as bit patterns.
