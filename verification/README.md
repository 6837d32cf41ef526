# hypercore-wasm

A browser client that replicates one hypercore feed over a websocket and
shows its content on the page.

- `src/` is the verified library:
  - `hexcode` — hex encoding and decoding of keys, with exact contracts;
  - `feed` — the download state machine of one feed (`have`, `data`, the
    text of the blocks in index order) and its laws;
  - `store` — the feeds by discovery key, the read-after-write law, and the
    decisions on the events of the replication stream;
  - `transport` — how a write on the websocket ends;
  - `demo` — the answer of the `open2` entry point.
- `app/` is the unverified shell: the websocket, the protocol stream, the
  DOM, and the `wasm_bindgen` exports. It converts wire messages into the
  library's types and performs the actions the library returns.
- `tests/` runs the library on concrete values.
