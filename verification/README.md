# timber

A source connector for Timber, a message log with an HTTP API. It reads the
partitions of a topic in batches, hands every message over to a collector, and
asks for the next batch from the last offset on.

- `src/` is the library, verified with Verus.
  - `text`: decimal numbers and white space.
  - `ndjson`: bodies of newline-delimited JSON, cut into messages.
  - `payload`: payloads in base64, by the `base64` crate.
  - `api`: the API's types, the addresses of its resources, and the reading of
    its responses.
  - `options`, `table`, `connection`: what a table is declared with, the table,
    and the connection that is made of it.
  - `connector`: the connector itself.
  - `source`: the state machine that runs the source operator.
- `app/` sends the requests, turns JSON into the library's types, and runs the
  loop around the state machine.
- `tests/` holds the library's tests.

What the library takes from outside without proof stands in a few items, each
with a comment that says what it claims: `payload::encode` and
`payload::decode`, `ndjson`'s decoding of UTF-8, `reqwest::Client`, and the two
constructors of `fluvio::Offset`.
