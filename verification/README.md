# inturn

Interning of byte strings, strings and `Copy` values into dense `Symbol`s, verified with Verus.

- `src/symbol.rs`: `Symbol` and the `InternerSymbol` trait.
- `src/interner/unsync/`: single-threaded interners (`BytesInterner`, `Interner`) over a
  `hashbrown::HashTable`. Their contracts model the interner as the sequence of interned
  strings: interning a string returns the position that holds it, appending it only when
  it is not held yet, so no string is held twice; each string is looked up under the hash
  that the interner's own hasher gives it, and that hash is the same on every call.
- `src/interner/sync/`: thread-safe interners over `dashmap::DashMap` and `boxcar::Vec`.
- `src/interner/copy.rs`: thread-safe interner of `Copy` values.
- `src/interner/bytes.rs`: byte string interner over `papaya::HashMap`.

The thread-safe interners change through shared references from any thread. Their
contracts speak of the bytes each position of the interner holds once written (each
position is written once): the symbol that interning returns stands for a position
holding the interned bytes, and `try_resolve`, when the position is written, gives back
exactly those bytes. What other threads intern, and so the numbering of new symbols and
the count of strings, is left open there.
