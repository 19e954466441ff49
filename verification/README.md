# rottingapple

Mirrors the screen of a PC to an AirPlay receiver.

- `src/` is the library: configuration and stored credentials, pairing and pair-verify, FairPlay
  set-up messages, RTSP requests and replies, property lists, reports of the receiver, picture
  geometry, H.264 packets, stream encryption, audio packets, pacing and the state of the streaming
  loop. Its functions carry
  `requires` and `ensures` clauses that Verus proves.
- `app/` is the program around it: the command line, files, the network, screen capture and the
  asynchronous loops.
- `tests/` exercises the library from outside.

Calls into other crates (hashes, ciphers, key agreement, big numbers, property list encoding, the
H.264 encoder, base64 and hexadecimal text) go through small wrappers whose contracts are taken on
trust. They stand in `src/crypto/primitives.rs`, `src/crypto/numeral.rs`, `src/codec.rs`,
`src/plist_value.rs` and `src/video/encoder.rs`, and a few beside the code that needs them.
