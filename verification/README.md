# kessel

The logic of a tiny fantasy console's tools, verified with Verus: a software
synthesizer's bookkeeping, the command line, the protocol by which a play window
joins a running session, a tools-only JSON-RPC server, the play surface for
other languages, and the runtime around a language model's tensors.

Every function under `src/` states in its contract what it returns or changes,
over mathematical models of the data; Verus proves it. Properties that span
several functions are public proof functions whose names start with `law_`.

## Layout

```
src/audio/    patch files, banks, events, the queue, the sequencer, voices,
              the synth and the engine that places events on their sample
src/attach/   wire format, player slot, client, session discovery
src/cli/      commands, options, paths, headless runs, the play window's rules
src/mcp/      requests in, answers out
src/gallium/  model files, tensor layout, caches, masks, quantization levels,
              shapes of attention and feed-forward layers
src/repl.rs   a conversation at a terminal
src/ffi.rs    what crosses to other languages
src/device.rs the gamepad, stick and touch input of one frame
src/text.rs, src/bytes.rs   strings and little-endian numbers
app/          ordinary Rust around the library: sockets, files, the window,
              floating-point sound and tensors
tests/        the library from outside
```

## What is trusted

A few items state, without proof, what code outside the library does:
`String::push`, `String::from_utf8_lossy` and `str::to_uppercase` of the
standard library, the members of a `serde_json::Value`, and the block sizes of
`candle_core`'s tensor types. Each says so in its doc comment.
