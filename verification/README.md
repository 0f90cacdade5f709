# thegarii

Polls blocks from Arweave nodes and writes each one to stdout as a
`DMLOG BLOCK <HEIGHT> <HEX>` line, with the block encoded as its
`sf.arweave.type.v1` protobuf message.

- `src/` is the library, verified with Verus:
  - `env.rs`: the settings read from environment variables (defaults, decimal
    parsing, comma-separated endpoints);
  - `num.rs`, `text.rs`: decimal reading and writing, splitting on commas,
    hexadecimal writing;
  - `difficulty.rs`: 256-bit cumulative difficulties (reading from decimal,
    comparing);
  - `types.rs`, `pb.rs`: blocks in their JSON and protobuf forms, and the
    conversion between them (Base64-URL decoding of binary fields);
  - `polling.rs`: the polling state: batching of heights, the unconfirmed
    window of live blocks and fork choice by cumulative difficulty, the
    `DMLOG` line;
  - `cmd.rs`: the parsed command line.
- `app/` is the program around it: command-line parsing, the environment,
  the HTTP client, protobuf encoding and printing.
- `tests/` runs the library on concrete values.
