# Obscura

The logic of a camera application for phones and tablets, written in Verus.
What a camera session does, how controls are described and set, how photos,
raw files and recordings are put together, and how the window answers to what
happens: each function states in its contract what it returns or changes, and
Verus proves it.

- `src/` is the library. It does no I/O and holds no floating point: numbers of
  a camera stack are carried by their bits (`number`), and what is computed of
  them is rounded as binary64 rounds it (`rounding`).
  - `number`, `rounding`, `text`: numbers by their bits; rounded arithmetic;
    decimals and comparisons of text.
  - `modes`, `settings`, `camera`: sensor modes, controls and their values,
    cameras, sessions, frames.
  - `worker`: the life of a libcamera session, from commands and completed
    requests to actions.
  - `pipewire`: the same for a PipeWire stream, and the controls of its nodes.
  - `dng`, `photo`, `video`: raw files, JPEGs, recordings.
  - `controls`: which row shows a control, and which rows depend on which.
  - `app`, `viewfinder`, `device`, `portal`, `perf`, `preview`: the window's
    state, textures, rotation, permissions, counters, and a camera that is not
    there.
- `tests/` runs the library on concrete values.
- `app/` is the program around it: GTK, libcamera, GStreamer, PipeWire and the
  portals. It performs what the library decides and hands back what happened.

Public proof functions whose names begin with `law_` state what holds across
several functions. Functions marked `external_body`, and `assume_specification`
items, are believed and not proved; their comments say what is claimed.
