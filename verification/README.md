# bevy_react_core

The core logic of a bridge that renders React UIs as Bevy UI, written in
Verus. Every function in `src/` carries a `requires`/`ensures` contract that
Verus proves, with one exception: `text::debug_quoted`, a trusted wrapper
around std's `{:?}` formatting of a string (used to quote names in warning
messages), whose contract Verus takes on trust.

- `src/filters/` — the `filter` style: the wire format and its
  warn-don't-abort decode (`wire`, `morph`, over the `json` value model),
  the packing layouts of the built-in filters (`builtin`, `params`), what
  each chain entry resolves to, chain assembly with one warning per skipped
  entry, and the compare-before-write of a node's chain (`resolve`),
  transition planning with identity padding (`transition`), the filter
  registry (`registry`) and the precompile list (`warm`).
- `src/image_rendering/` — the `imageRendering` style: which images already
  render a mode, what a node binds to (`plan`), the refcounted variant cache
  (`variants`) and the mip-pyramid build: which images qualify, the chain's
  geometry, and the level-by-level assembly around a given 2×2 box filter
  (`pyramid`).
- `src/gamepad.rs`, `src/keyboard.rs` — input events: the gamepad id registry
  and its per-frame announcements, keyboard event payloads.
- `src/host.rs`, `src/js_thread.rs` — decisions of the JS host: the event
  mailbox, request-id decoding, console levels, the event-loop pump and hot
  reload.
- `app/` — the Bevy side: the `imageRendering` binder, the gamepad and
  keyboard forwarders, the bundle watcher, filter registration (strict
  params decoding, with the core's per-pass cap re-check baked into each
  registered resolve), the `filter`, `backdropFilter` and `morphFilter`
  chain resolve systems, ease planning and sampling, and the precompile
  list builder (`resolve`), serde/TypeScript copies of the wire types, JSON conversion,
  and the floating-point work (param interpolation, `Length` rewriting,
  pixel averaging).
- `tests/` — tests of the library.

What `app/` leaves to the embedding application:

- The built-in filters' passes (their float packing and shader handles):
  they load WGSL shaders embedded in the host's asset bundle, which this
  crate does not ship. `app::resolve` takes them as registrations of
  `ReactFilter` types. The `gradientMap` stop cap (`check_stop_count`)
  belongs to that filter's resolve.
- The JS runtime thread and the web host: they run on `deno_core` (V8),
  whose build links a prebuilt V8 library; this crate does not depend on it.
  The decisions they make (hot reload, event-loop pumping, the mailbox,
  request ids) are in `src/js_thread.rs` and `src/host.rs`.

`wgpu-types` is a dependency of `app/` only: the binder reads a source
texture's `TextureUsages` to tell whether it is a render attachment.
