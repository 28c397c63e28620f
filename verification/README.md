# limits

The rules of an asteroid-mining game in which a black hole eats the field a
little more every day. The library is verified with Verus; a Bevy program around
it draws, plays sounds and reads the keyboard.

## Layout

- `src/` is the library. It knows no engine and no floating point: smooth
  quantities come in as comparisons, ranks, 24-bit hashes or closures.
  - storage: `voxel_map`, `chunk`, `state`, `world`; laws: `storage`, `history`
  - bodies: `body`, `field`, `motion`, `nearby`, `horizon`, `hash`
  - streaming and display: `stream`, `entities`, `mesh`, `face`, `lod`, `scene`
  - play: `player`, `mining`, `ray`, `blast`, `economy`, `growth`, `blocks`
  - the day: `day`, `reset`, `demo`, `sim`
  - text and sound: `text`, `hud`, `audio`
- `tests/` runs the library on concrete values. `tests/terrain.rs` brings the
  floating-point terrain that the storage is tested over.
- `app/` is the program: scenes, input, floating-point motion and terrain.

Functions named `law_*` state what holds of the library as a whole, such as that
digging survives unloading and regeneration of a chunk, that storage never shows
anything but terrain and edits, that the player is never left inside a rock, or
that a trade never leaves a debt.

## Building

A desktop build needs Bevy's `bevy_winit`, a window system (`x11` or `wayland`),
`bevy_audio` and `wav` features besides those in `Cargo.toml`.
