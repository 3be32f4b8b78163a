# VeriShare

File transfer between the users of one local network: programs find each other by
themselves, every connection is encrypted, a transfer that broke off goes on from where it
stopped, a file that is there gives way to no other, and every file is held against its
SHA-256.

- `src/` is the library. All of it is verified with Verus: each function states what it
  gives for every input, and the laws that span functions are public proof functions.
- `tests/` runs the library on concrete values, with the real cryptography underneath.
- `app/` is the desktop program around the library: sockets, files, clocks, JSON and the
  window. It needs Tauri and its plugins besides the crates of `Cargo.toml`.

## What the library rests on

The contracts of a few outside functions are believed rather than proved. Each stands in a
small function of its own whose documentation says what is claimed: X25519 (`x25519-dalek`),
AES-256-GCM (`aes-gcm`) and the random bytes of the system (`rand`) in `src/crypto.rs`,
SHA-256 (`sha2`) in `src/digest.rs`, the text of a UUID (`uuid`) in `src/identity.rs`,
`String::push` in `src/text.rs` and the copy of a path in `src/settings.rs`.
