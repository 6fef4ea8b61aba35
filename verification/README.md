# yawc

The verified core of YaWC, a Wayland compositor built on smithay, written in Verus.

- `src/` — the library, verified by Verus:
  - `config/` — the configuration: resolving decoded values (`Config::from_raw`,
    `Xkb::from_raw`), key bindings and their text form (`binds`), environment
    variables (`envs`), where the configuration file is looked for and created.
  - `simple_config` — the minimal configuration of the standalone entry point.
  - `numeric` — decimal integer parsing with the syntax of Rust's `str::parse`.
  - `backend` — which backend a session runs on.
  - `udev` — the choices of the DRM path: device node, which further cards are
    searched, connector and CRTC, mode.
  - `fps_counter` — the frames-per-second overlay (glyph layout, commit counter, the
    damage clipped to each glyph) and the sliding window of frame times.
  - `fps_texture` — the pixels of the digits atlas, decoded from its PNG image with
    the `png` crate.
  - `logging` — which events are printed and how a log line is laid out.
  - `text` — string helpers.
- `tests/` — tests of the library.
- `app/` — the compositor binary: file and environment access, the KDL decoding
  with `knus`/`knuffel`/`kdl`, keysym lookup through libxkbcommon, the smithay render
  element, the texture upload and the DRM setup, the `tracing` subscriber, and the floating-point frame rates.
