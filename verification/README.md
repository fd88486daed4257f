# airsend

Airsend sends files between devices on the same local network. This crate is its
core, written in Verus: the functions in `src/` carry contracts that Verus proves,
and the laws of the library are proof functions beside the code.

The exception is a handful of small wrappers around outside calls, marked
`#[verifier::external_body]`: their contracts are trusted, not proved. They are
`blake3_hash` (`src/hashing.rs`); `hasher_new`, `hasher_update` and
`hasher_finalize` (`src/transfer/tcp.rs`, BLAKE3 over a stream); `random_uuid_text`
(`src/ids.rs`, a version 4 UUID); `system_host_name` (`src/storage/json_store.rs`);
`system_time_now`, `duration_since_epoch` and `whole_seconds` (`src/commands.rs`,
the clock); and `push_char` (`src/text.rs`, `String::push`). The outside types they
pass around are declared with `#[verifier::external_type_specification]`, and
`blake3_digest` names the BLAKE3 function itself, which is not written out.

## Layout

- `src/transfer/chunks.rs`: chunk plans (they cover a file exactly) and resume plans
  (verified chunks are skipped, keyed by file and chunk index).
- `src/transfer/manifest.rs`: manifests, the stable sort of entries by relative path,
  and the rules for walking a selection (links refused).
- `src/transfer/destination.rs`: reading a destination name sent by a peer with the
  receiver's path syntax (`/` separates components, and `\` too on Windows; no
  rooted names such as `/x`, `\\server\x` or `C:x`, no leading `.`, no `..`), and the resolver that picks where a received
  file is written (parents must be real directories; existing files are never
  overwritten, a numbered name is chosen instead).
- `src/transfer/tcp.rs`: the transfer header (entry paths travel with `/`, and are
  read back unchanged on every platform) and the receiving session, which
  accepts a file only when its bytes hash to the announced BLAKE3 digest.
- `src/discovery.rs`: announcements and the peer table (never holds this device,
  never two entries for one device; stale peers are marked offline, not removed).
- `src/platform/`: private-LAN address rules, bind guards, address text, interface
  summaries and firewall guidance.
- `src/security.rs`: six-digit pairing codes from BLAKE3.
- `src/storage/json_store.rs`: the stored data, its defaults, schema normalisation
  and trusted peers.
- `src/app_state.rs`, `src/commands.rs`: the snapshot shown to the user and the
  decisions behind its commands.
- `app/`: the Tauri shell: file system, sockets, JSON, and the commands.
- `tests/`: tests of the library on concrete values.
