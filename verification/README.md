# agentmem-core

The verified core of a multi-tenant memory store for agents.

- `src/` (Verus): namespace hashing (SHA-256 cut to 16 bytes), the byte
  layouts of the episodic, structured and semantic keys, big-endian
  encoding, the bytewise key order, and the decisions made while reading
  recent episodes, planning a `remember`, filtering vector-search results and
  choosing the episodes to evict. The isolation of namespaces, the time
  order of episodic keys and the read-back of timestamps and counters are
  proved as lemmas next to the functions they speak of.
- `app/` (plain Rust): RocksDB storage, the C++ embedder bridge, the HNSW
  index, MessagePack/bincode encoding, the clock and the eviction task. It
  computes every key and every keep/evict/limit decision through the core.
- `tests/`: tests of the core on concrete values.
