# filesync

Synchronises the files of a directory between machines: a client describes
its files (paths and modification times) to a file server, which asks for the
files that are newer on the client.

- `src/` is the verified library (Verus): the order of file lists and the
  comparison of two machines' files (`fileorder`, `machine`), the packets
  (`packets`), the client's connection state (`cli`), and the server's table
  of clients with the choice of client identifiers (`srv`).
- `app/` holds the programs around it: argument parsing, the file system
  walk, TCP connections, threads, and the encoding of packets with serde and
  bincode. `app/main.rs` runs the client (`client`), the server (`server`), or
  lists the current directory.
- `tests/` runs the library on concrete values.
