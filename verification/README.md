# wgmesh

The control plane of a WireGuard mesh, verified with Verus.

A coordinator hands out mesh addresses and relays traffic; agents register with
it, learn of each other, and probe for direct tunnels. Every node's identity is
its SSH ed25519 host key: the key signs requests, and the WireGuard key pair is
derived from it.

## Layout

- `src/` is the library. Its functions carry contracts over mathematical models
  (sequences of characters and bytes, maps, integers), and its laws are public
  proof functions.
  - `probe`: the state machine of each peer, from probing to direct or relayed.
  - `store`: the registry of nodes, and the addresses that they keep.
  - `sig`, `signers`, `server`: signing, the allowlist, and what is answered.
  - `keyderive`: WireGuard keys out of SSH keys.
  - `stun`: discovering a public endpoint.
  - `wglink`: what to tell `wg(8)` and `ip(8)`, and how to read them.
  - `agent`, `coord_client`, `lan`: one round of an agent, step by step.
  - `config`, `relay`, `tools`: the coordinator's configuration, its hub, and
    the key converter.
  - `text`, `num`, `net`, `clock`, `strmap`, `api`: what the others are made of.
- `app/` is the programs: sockets, files, processes, JSON and command lines.
- `tests/` runs the library.

## What is trusted

`crypto` holds the calls into other crates: SHA-2, ed25519, X25519, base64,
hexadecimal, SSH key files and random bytes. Results that take pages to define
are named there, and each name's doc comment says what is claimed of it. Beside
them stand `String::push` in `text` and `str::to_lowercase` in `wglink`.

Factors of the probe's backoff are fractions, points in time are counts of
nanoseconds, and maps with text keys are kept in key order.
