# wzp_client

The decisions of an encrypted voice call client, verified with Verus: how peers
find a path to each other, what is sent and what is played, and the tools around
it.

- `src/` is the library. It takes and returns plain values. Its functions have
  contracts, save three of which nothing can be promised: two that read the
  clock (`utc_now_text`, `utc_now_rfc3339`) and one that draws a transaction ID
  (`gen_txn_id`). Laws that span functions are proof functions beside them.
  - `net`, `text`, `bytes`, `time`, `random`, `ring`, `order`: addresses, texts,
    byte orders, times, random values, sample queues and sorting.
  - `stun`, `portmap`, `reflect`, `relay_map`, `netcheck`, `ice_agent`,
    `dual_path`, `birthday`: finding a path.
  - `proto`, `handshake`, `encrypted_transport`, `call`, `featherchat`,
    `metrics`: a call.
  - `audio_ring`, `audio_io`, `audio_vpio`, `audio_wasapi`, `audio_linux_aec`:
    samples between devices and a call.
  - `cli`, `bench`, `bench_cli`, `echo_test`, `drift_test`, `sweep`,
    `analyzer`: the programs.
  - `android`: the engine of the Android app.
- `app/` opens the sockets, files and terminals, runs the tasks, and asks the
  library what to do. Floating point lives there. QUIC, codecs, FEC, the jitter
  buffer, key exchange and sound devices come through the traits in
  `app/backend.rs`.
- `tests/` runs the library.
