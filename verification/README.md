# ontio_std

Support library for Ontology WebAssembly contracts, written in Verus, with
its behaviour stated in contracts and proved.

- `src/database`: the adaptive radix tree that contracts keep in storage
  (`node`, `node_tree`), its byte format and its storage round trip
  (`node_codec`), and `put`/`get` over the runtime's storage (`store`).
- `src/abi`: the byte sink and source, the VM value builder and parser, and
  the encoder and decoder traits.
- `src/mock`: the mock runtime that native tests run contracts against.
- `src/invalid_check`: the check of a compiled contract for what the chain
  refuses (float types and instructions, unknown host imports, host imports
  of the wrong type), from the bytes of the module to the first refusal.
- `src/types.rs`: addresses and hashes.
- `app/`: what talks to the world: the thread-local mock host that contracts
  link against, the host calls of the chain, debug output, and reading a
  contract file for the check.
- `tests/`: tests of the library on concrete values.
