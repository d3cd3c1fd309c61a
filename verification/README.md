# terracotta

A small server for the Minecraft Java protocol, with its core verified by
Verus.

- `src/` is the verified library:
  - `server::network`: VarInts and length-prefixed UTF-8 strings, read from
    a byte iterator and written to a byte vector, with the round trips
    proved.
  - `server`: reading one packet in a given connection state, and the
    player registry.
  - `server::session`: what a connection does with each packet: the state
    it moves to, what it records of the player, what it answers.
  - `server::validate`: whether received bytes hold a whole packet.
  - `config`: `terracotta.toml` (through the `toml` crate),
    `server.properties`, and the defaults.
  - `logs`: the colour and label of a log line.
  - `world`: connection states, players, world settings.
- `app/` is the program around it: reading the configuration files,
  logging, the TCP listener and the per-client loop (tokio), the status
  document (serde_json), and the dimension registry types.
- `tests/` exercise the library on concrete values.
