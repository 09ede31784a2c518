# marie_core

The core of marie, a peer-to-peer runtime that executes LLM agents across the
nodes of a cluster. This crate holds the rules that the nodes share: who does
what, what is replicated, what is stored, and what is answered. Each function
states what it does in a contract that Verus proves.

- `src/` is the library.
  - `collections`, `text`, `id`, `hrw`: tables, texts, identifiers, hashing.
  - `hitl`: questions to humans, their answers and their store.
  - `mode`: modes of a session, among them state graphs.
  - `model`: declarations of models, their catalog, their store, the rotation
    of their keys, and what a stream of a provider comes to.
  - `lease`, `raft_log`: leases on sessions, and the replicated log.
  - `network::cp`: the control plane.
  - `network::{bootstrap, worker, persistency, actor, mux}`: namespaces,
    workers and watchdogs, persistency nodes, the swarm and its frames.
- `app/` is ordinary Rust around the library: sockets, databases, clocks, tasks
  and JSON.
- `tests/` run the library with the outside crates linked.

What the library takes from outside crates stands behind a few functions whose
contracts are stated, not proved: identities of peers (`libp2p`), time
(`chrono`), digests (`sha2`), JSON (`serde_json`), replicated documents
(`loro`), state vectors (`yrs`), and two functions of std on characters and
texts. Each says in its comment what it claims.
