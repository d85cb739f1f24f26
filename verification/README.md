# wmpf_debugger

A remote debugger for WeChat mini programs (WMPF): a WebSocket server that
the mini program connects to, a proxy that Chrome DevTools connects to, and a
Frida hook that opens the remote-debug protocol inside `WeChatAppEx.exe`.

The protocol logic is a Verus-verified library under `src/`:

- `wire`, `proto`: the protobuf wire format and the message tables of the
  remote-debug protocol, decoding and encoding with `prost`'s varint and key
  routines (decoding what is encoded gives the values back).
- `json`: the JSON values the library builds and reads.
- `constants`: ports, compression bits, message categories and command names.
- `codex`: debug-message bodies to and from JSON, zlib (de)compression with
  `flate2`, data frames and their replies.
- `relay`: what the debug server does with each frame in either direction.
- `cli`: the command line.
- `frida`, `hook`: choosing the process to attach to, its runtime version,
  and the hook script with its configuration.

`app/` holds the program around it: sockets, the Tokio runtime, logging,
files, and the frida-core C bindings. Those are compiled only with
`--cfg frida_link`, linking the frida-core devkit, for example
`RUSTFLAGS="--cfg frida_link -L native=frida-devkit -l static=frida-core"`.
`tests/` exercises the library.
