# lattice

Pools the machines you already own: devices find each other on the local
network, pair over a six-digit code, and run one language model across their
GPUs.

- `src/` is the library: identities and trust, pairing, streams and frames,
  addresses and discovery, model headers and weights, placement of layers on
  GPUs, and what the daemon's roles decide. Every item in it is verified with
  Verus.
  - `engine` holds models: their shape, what their layers weigh, shards.
  - `net` holds what devices say to each other and whom they believe.
  - `daemon` holds what the command line's roles decide: master, worker, chat.
  - `text`, `bytes` and `table` are what these are written with.
- `app/` is the daemon around it: QUIC, mDNS, files, processes, and the floating
  point of the layers themselves.
- `tests/` runs the library on concrete values.

A few functions of outside crates (hashes, signatures, certificates, the
password-authenticated key exchange, the wire format of small messages, random
numbers) are called through small wrappers whose contracts are believed rather
than proved. Each says in its comment what it claims.
