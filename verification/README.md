# seam_protocol

Post-quantum encrypted transport over UDP, and the rules of the `seam` command line tool, written
in Verus: the code runs as ordinary Rust, and what it does is stated in contracts that are proved.

## Layout

- `src/packet.rs`, `src/error.rs`: packet types and errors.
- `src/crypto/`: ciphers, packet keys, packet encoding and decoding, header protection, replay
  protection, key rotation, and the double ratchet.
- `src/fec/`: forward error correction over GF(256): the field, linear systems, the codec, and the
  choice of its strength.
- `src/handshake/`: cookies, identities, the hybrid key exchange, and the three messages of the
  handshake.
- `src/cli/`: what the commands decide: file transfer, directory synchronisation, remote shells,
  forwarding, proxying, scanning, the audit log, the configuration, pinned keys, the doctor, the
  measurements, and the interactive form.
- `src/bytes.rs`, `src/text.rs`, `src/clock.rs`: byte strings, text, and clocks.
- `tests/`: tests of the library from outside.
- `app/`: the program around the library. It reads and writes files, sockets and terminals, and
  leaves every decision to the library. Commands that need a session run over anything that
  implements the traits in `app/link.rs`.

## What is proved

Functions state what they return or change for every input they accept; where a result rests on
chance or on the clock, what holds whatever comes. Beyond that, public
proof functions whose names begin with `law_` state what holds across functions: that what one
side writes the other reads, that no packet number is accepted twice, that packets get their keys
in whatever order they come, that any `k` symbols of a
group give its lost payloads back, that a pinned key stays pinned, that a synchronised directory
equals its source. `handshake::exchange` runs a whole handshake and shows that both sides end with
one session.

## What is trusted

Calls into other crates and into parts of the standard library stand behind small functions marked
`external_body`, each with a doc comment that says what is claimed of the call. They are in
`src/crypto/digest.rs`, `src/crypto/secret.rs`, `src/crypto/header.rs`, `src/crypto/mod.rs`,
`src/handshake/quantum.rs`, `src/handshake/noise.rs`, `src/cli/copy.rs`, `src/cli/formats.rs`,
`src/cli/sync.rs`, `src/clock.rs` and `src/text.rs`.
