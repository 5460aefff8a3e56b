# bells_indexer

The verified core of an inscription indexer for Bellscoin/Dogecoin-style chains.

- `src/` (checked by Verus): the byte encodings of the stored keys and values
  (`address_location`, `partials`, `block_info`, `bytes`), the key ranges that list what an
  address holds, the planning of a block's table writes (`processed_data`, `indexer`), the
  chain settings (`config`) and the request checks of the REST interface (`rest`). Calls into
  `bellscoin`, `bitcoin_hashes` and std's text functions stand behind small trusted wrappers
  whose contracts name what they claim.
- `app/`: the process around it: settings from the environment, the RocksDB tables, the block
  loop and the HTTP server.
- `tests/`: executable checks of the library on concrete values.
