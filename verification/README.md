# hisi_crypto_ws63

Verified drivers for the cryptographic engines of the WS63: PBKDF2 on the key manager,
SHA-1/SHA-256, HMAC and AES blocks on SPACC, and P-256 on the public key engine.

No engine touches a register. Each step of an operation hands out the commands to perform,
in order, and one question; the answer leads to the next step. What an operation does is
therefore a function of the answers, and its properties are proved for every sequence of
them.

- `src/` is the library. `rkp`, `spacc_hash`, `spacc_hmac`, `spacc_cipher` and `pke` hold the
  engines, `crypto` and `pke::p256` the capabilities that own the hardware tokens, and `bus`
  the vocabulary of commands, questions and answers.
- `src/laws/` states what holds of whole runs: every run ends, releases what it claimed,
  wipes what it staged, and delivers the result of a fault-free engine.
- `src/pke/prime.rs` proves that the field prime is prime, which is why points with equal
  first coordinates are equal or inverses.
- `tests/` drives the engines against simulated devices and compares them with software.
- `app/` performs the commands on the real registers and offers the `hisi_crypto` traits.
