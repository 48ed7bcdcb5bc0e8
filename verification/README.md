# stagelx

The core of a stage-lighting controller, verified with Verus: DMX universes
and their HTP/LTP merge engine, the wire formats of Art-Net, sACN (E1.31) and
the Enttec USB Pro, the GDTF and MVR readers (with the MVR writer), the .3ds
mesh parser, the patch, the cue stack with its playhead, the patch panel's
selection and form rules, and the per-frame decisions of each transport.

## Layout

- `src/` — the verified library. Each public function states in its contract
  what it returns or changes; laws that relate several functions are public
  proof functions named `law_*`.
  - `universe`, `engine` — DMX buffers, universe sets, sources and the merge.
  - `projection`, `capture` — attribute levels onto channels and back.
  - `artnet`, `sacn`, `usb`, `io`, `config` — packets, receive paths, OSC and
    MIDI routing, and the transport plans.
  - `gdtf`, `mvr`, `mvr_export`, `archive`, `library` — fixture types, scene
    descriptions, ZIP containers (read and written by the `zip` crate) and
    the fixture library.
  - `patch`, `selection`, `cue`, `show` — the patch, its panel, the cue stack
    and the show file.
  - `tds` — .3ds chunks and meshes.
  - `text`, `types` — decimal text and shared types.
- `tests/` — tests run against the compiled library.
- `app/` — a command-line program around the library: file and network I/O,
  threads, serde deserialisation of GDTF XML and everything in floating point.
