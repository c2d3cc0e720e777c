# tiny_web

The core of a small HTTP server, with contracts that Verus proves.

- `src/response.rs`: responses, and which headers they take
- `src/transfer_encoding.rs`: whether the data of a response goes as it is or in chunks
- `src/message.rs`: the bytes that are sent of a response
- `src/framing.rs`: what holds of every message
- `src/common.rs`: headers, versions, status codes, dates
- `src/server.rs`: the state of a server, and what its threads and its users do next
- `src/util/`: header values, the queue of messages, the pool of threads, and what becomes of its
  tasks
- `src/ascii_text.rs`, `src/chunks.rs`, `src/clock.rs`: what is taken from the crates `ascii`,
  `chunked_transfer` and `chrono`, with the contracts that are trusted of it
- `app/`: sockets, threads, readers and writers around the core
