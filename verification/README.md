# redis_lite

A small Redis-compatible server whose request handling is verified with Verus.

- `src/` is the verified library:
  - `codec.rs`: RESP encoding of arrays and bulk strings;
  - `digits.rs`: decimal lengths and unsigned number parsing;
  - `search.rs`: first occurrence of an item, text and byte comparison;
  - `store.rs`: the key/value data, the configuration and the handshake flag;
  - `parsers/`: the line reader (`wire.rs`), the command handler
    (`protocol.rs`), the replica handshake (`handshake_parser.rs`), the RDB
    snapshot loader (`rdb_file_parser.rs`), the command line
    (`args_parse.rs`), and the proof that encoded arrays read back
    (`roundtrip.rs`);
  - `server/handshake.rs`: the `REPLCONF` requests a replica sends;
  - `utils.rs`: replication ids, key/value lines, snapshot framing;
  - `trusted.rs`: the calls into `memchr`, `chrono`, `rand`, `base64` and a
    few `std` functions, with the contracts believed for them.
- `app/main.rs` is the program: arguments, files, sockets and tasks.
- `tests/` exercises the library on concrete requests.
