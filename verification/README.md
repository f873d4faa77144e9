# nio_blockchain

The core of the NIO proof-of-work blockchain, written in Verus: every
function in `src/` carries a contract that Verus proves.

## Layout

- `src/` — the verified library.
  - Monetary policy and supply: `economy`, `supply_math`, `genesis`,
    `reserve`, `treasury`.
  - Chain state: `transaction`, `utxo`, `fee`, `block`, `mining`,
    `difficulty`, `consensus`, `chain`, `genesis_utxo`, `mempool`,
    `block_builder`, `wallet`, `keys`.
  - Peer-to-peer: `p2p`, `p2p_protocol`, `p2p_message`, `p2p_codec`,
    `p2p_message_codec`, `p2p_handshake`, `p2p_handshake_session`,
    `p2p_runtime`, `p2p_manager`, `p2p_peer_manager`, `p2p_discovery`,
    `p2p_peer_discovery`, `p2p_transport`, `peer_table`.
  - Treasury key sealing: `treasury_key`.
  - Shared pieces: `bytes` (fixed-width encodings, byte comparison, UTF-8
    text), `assoc` (maps kept as key and value vectors).
  - `crypto` holds the trusted interface to `sha2`, `secp256k1`,
    `getrandom`, `argon2`, `chacha20poly1305`, `base64` and
    `String::from_utf8`: each item there states what it takes from the
    outside crate, and nothing in it is proved.
- `tests/` — the test suite, run against the compiled library.
- `app/` — the command-line program: node status, treasury key generation
  and sealing, the supply analyzer, and the TCP transport. It holds the
  file, terminal and socket handling and the floating-point output.

## Main properties proved

- The mining supply never exceeds the 900 NIO allocation; rewards halve per
  era and stop at the cap.
- A block is accepted exactly when it passes the header, reward, Merkle,
  proof-of-work, fee and UTXO rules, and a rejected block leaves the chain
  and the UTXO set unchanged.
- Applying a transaction spends each input once; a failed application
  changes nothing; the UTXO state hash is a function of the set's contents.
- Mempool selection takes the highest-fee transactions in one fixed order,
  and a mined template passes the chain's own block check.
- The wire formats decode what they encode for every message that decoding
  accepts, and decoding succeeds only on such encodings.
