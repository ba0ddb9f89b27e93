# pyroxene

A small proof-of-work blockchain node. The library in `src/` is written in
Verus and verified; the program in `app/` is ordinary Rust around it.

- `block`: blocks, headers, transactions, the mining reward.
- `database`: nibbles of keys and the nodes of the state trie.
- `network::protocol`: the packet wire format, with the proof that reading
  back the bytes of a packet gives the packet.
- `network`: a node's chain bookkeeping: which blocks it knows, which
  received blocks extend its chain, what it rebroadcasts.
- `verify`: block hashes (SHA-256) and the link between consecutive blocks.
- `client`: command lines, addresses, amounts and the queue of pending
  transactions.

`app/` holds the sockets, threads, standard input, RSA keys, the archive
encoding of blocks and the floating-point difficulty adjustment.
