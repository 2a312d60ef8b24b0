# rustmc

A small Minecraft Java Edition toolkit: the wire protocol (VarInts, frames,
handshake, status, login and configuration packets), an NBT reader, region
(`.mca`) files and chunk columns, and the decisions of a minimal play server.

## Layout

- `src/` is the library, written and proved with Verus. Every function there
  carries a contract; the laws of the library (round trips of the encoders and
  decoders, what the server state keeps from one call to the next) stand there
  as public proof functions named `law_*`.
  - protocol: `varint`, `packet`, `handshake`, `status`, `login`, `config`,
    `state`, `framing`, `ping`
  - world data: `nbt`, `chunk`, `column`, `region`, `level_chunk`, `world`
  - play server: `server_state`, `play`, `login_packet`, `templates` (the
    captured packets replayed at login)
  - boundaries: `buffers` (the `bytes` crate), `compress` (`flate2`), `text`
    (UTF-8 and string building); these hold the trusted wrappers, each with a
    doc comment that says what its contract claims of the call it makes.
- `app/` is the program around the library: the command line, sockets and
  files, the async loops, JSON, and the few computations on floats.
- `tests/` exercises the library from outside.
